use media_catalog::store::MediaStore;
use media_catalog::album::{Service, CreateAlbumRequest, UpdateAlbumRequest, AddAlbumImagesRequest, RemoveAlbumImagesRequest};
use media_catalog::common::ServiceError;
use media_catalog::timefmt::Timestamp;
use media_catalog::common::IngestError;
use media_catalog::fields::FieldMap;
use media_catalog::value::{FieldValue, infer_value};

fn fresh_store() -> MediaStore {
    MediaStore::new("proj".to_string())
}

fn stage(store: &mut MediaStore, path: &str, bytes: &[u8]) {
    store.fs.save_file_to_directory(path, bytes.to_vec());
}

fn create_request(cover: &str, images: Vec<String>) -> CreateAlbumRequest {
    CreateAlbumRequest {
        title: "Title".to_string(),
        description: "Description".to_string(),
        cover: cover.to_string(),
        images: Some(images),
        completed: None,
        tags: None,
        enable: None,
        min_age: None,
        released_at: None,
    }
}

#[test]
fn create_album_commits_files_after_the_row() {
    // one cover and two description images staged
    let mut store = fresh_store();
    stage(&mut store, "proj/tmp/r/f0/cover.png", b"c");
    stage(&mut store, "proj/tmp/r/f1/a.jpg", b"a");
    stage(&mut store, "proj/tmp/r/f2/b.jpg", b"b");
    let req = create_request(
        "proj/tmp/r/f0/cover.png",
        vec!["proj/tmp/r/f1/a.jpg".to_string(), "proj/tmp/r/f2/b.jpg".to_string()],
    );
    let resp = Service::create_album(
        &mut store,
        req,
        "au".to_string(),
        "iu".to_string(),
        vec!["k1".to_string(), "k2".to_string()],
    ).expect("create must succeed");

    assert_eq!(resp.images.len(), 2);
    assert_eq!(resp.url, "data/au/iu.png");
    assert_eq!(resp.images[0], "data/au/k1.jpg");
    assert_eq!(resp.images[1], "data/au/k2.jpg");
    assert_eq!(resp.title, "Title");
    assert_eq!(resp.uuid, "au");
    assert!(!resp.completed);
    assert!(resp.enable);
    assert_eq!(resp.min_age, 0);
    assert_eq!(resp.bytes, 1);

    // all three temp files are gone and the bytes sit at the destinations
    assert!(!store.fs.exists_file("proj/tmp/r/f0/cover.png"));
    assert!(!store.fs.exists_file("proj/tmp/r/f1/a.jpg"));
    assert!(!store.fs.exists_file("proj/tmp/r/f2/b.jpg"));
    assert!(store.fs.exists_file("proj/data/au/iu.png"));
    assert!(store.fs.exists_file("proj/data/au/k1.jpg"));
    assert!(store.fs.exists_file("proj/data/au/k2.jpg"));
    assert_eq!(store.albums.len(), 1);
}

#[test]
fn failed_row_write_moves_no_file() {
    // a stale UUID makes the row write fail; no file may land
    let mut store = fresh_store();
    stage(&mut store, "proj/tmp/r/f0/cover.png", b"c");
    let first = create_request("proj/tmp/r/f0/cover.png", Vec::new());
    Service::create_album(&mut store, first, "au".to_string(), "iu".to_string(), Vec::new())
        .expect("first create succeeds");
    stage(&mut store, "proj/tmp/r2/f0/cover2.png", b"c2");
    let second = create_request("proj/tmp/r2/f0/cover2.png", Vec::new());
    let r = Service::create_album(&mut store, second, "au".to_string(), "iu2".to_string(),
        Vec::new());
    assert_eq!(r.err(), Some(ServiceError::Persistence));
    assert!(!store.fs.exists_file("proj/data/au/iu2.png"));
    assert!(store.fs.exists_file("proj/tmp/r2/f0/cover2.png"));
    assert_eq!(store.albums.len(), 1);
}

#[test]
fn missing_staged_cover_is_rejected_before_the_row() {
    let mut store = fresh_store();
    let req = create_request("proj/tmp/r/f0/missing.png", Vec::new());
    let r = Service::create_album(&mut store, req, "au".to_string(), "iu".to_string(),
        Vec::new());
    assert_eq!(r.err(), Some(ServiceError::Validation));
    assert_eq!(store.albums.len(), 0);
}

#[test]
fn missing_staged_image_after_row_is_a_file_exchange_error() {
    // two image fields name the same staged file: the second move finds
    // its source gone, the row stays, and the error says files were lost
    let mut store = fresh_store();
    stage(&mut store, "proj/tmp/r/f0/cover.png", b"c");
    stage(&mut store, "proj/tmp/r/f1/a.jpg", b"a");
    let req = create_request(
        "proj/tmp/r/f0/cover.png",
        vec!["proj/tmp/r/f1/a.jpg".to_string(), "proj/tmp/r/f1/a.jpg".to_string()],
    );
    let r = Service::create_album(&mut store, req, "au".to_string(), "iu".to_string(),
        vec!["k1".to_string(), "k2".to_string()]);
    assert_eq!(r.err(), Some(ServiceError::FileExchange));
    assert_eq!(store.albums.len(), 1);
    assert!(store.fs.exists_file("proj/data/au/k1.jpg"));
    assert!(!store.fs.exists_file("proj/data/au/k2.jpg"));
}

#[test]
fn update_without_new_cover_keeps_the_stored_asset() {
    let mut store = fresh_store();
    stage(&mut store, "proj/tmp/r/f0/cover.png", b"cov");
    let req = create_request("proj/tmp/r/f0/cover.png", Vec::new());
    let created = Service::create_album(&mut store, req, "au".to_string(), "iu".to_string(),
        Vec::new()).expect("create succeeds");
    let update = UpdateAlbumRequest {
        title: "New Title".to_string(),
        description: "New Description".to_string(),
        cover: None,
        completed: Some(true),
        tags: Some("#tag".to_string()),
        enable: None,
        min_age: None,
        released_at: None,
        broken_at: None,
    };
    let updated = Service::update_album(&mut store, "au".to_string(), update,
        "newkey".to_string(), Timestamp { secs: 100 }).expect("update succeeds");
    assert_eq!(updated.url, created.url);
    assert_eq!(updated.width, created.width);
    assert_eq!(updated.height, created.height);
    assert_eq!(updated.bytes, created.bytes);
    assert_eq!(updated.title, "New Title");
    assert_eq!(updated.updated_at, Some("1970-01-01T00:01:40Z".to_string()));
    // no file moved: the committed cover is still the only file
    assert!(store.fs.exists_file("proj/data/au/iu.png"));
    assert!(!store.fs.exists_file("proj/data/au/newkey.png"));
}

#[test]
fn update_with_new_cover_replaces_the_stored_asset() {
    let mut store = fresh_store();
    stage(&mut store, "proj/tmp/r/f0/cover.png", b"old");
    let req = create_request("proj/tmp/r/f0/cover.png", Vec::new());
    Service::create_album(&mut store, req, "au".to_string(), "iu".to_string(), Vec::new())
        .expect("create succeeds");
    stage(&mut store, "proj/tmp/r2/f0/newcover.gif", b"newbytes");
    let update = UpdateAlbumRequest {
        title: "T".to_string(),
        description: "D".to_string(),
        cover: Some("proj/tmp/r2/f0/newcover.gif".to_string()),
        completed: None,
        tags: None,
        enable: None,
        min_age: None,
        released_at: None,
        broken_at: None,
    };
    let updated = Service::update_album(&mut store, "au".to_string(), update,
        "newkey".to_string(), Timestamp { secs: 0 }).expect("update succeeds");
    assert_eq!(updated.url, "data/au/newkey.gif");
    assert_eq!(updated.bytes, 8);
    assert!(!store.fs.exists_file("proj/data/au/iu.png"));
    assert!(store.fs.exists_file("proj/data/au/newkey.gif"));
    assert!(!store.fs.exists_file("proj/tmp/r2/f0/newcover.gif"));
}

#[test]
fn update_of_unknown_album_is_not_found() {
    let mut store = fresh_store();
    let update = UpdateAlbumRequest {
        title: "T".to_string(),
        description: "D".to_string(),
        cover: None,
        completed: None,
        tags: None,
        enable: None,
        min_age: None,
        released_at: None,
        broken_at: None,
    };
    let r = Service::update_album(&mut store, "nobody".to_string(), update, "k".to_string(),
        Timestamp { secs: 0 });
    assert_eq!(r.err(), Some(ServiceError::NotFound));
}

#[test]
fn add_images_appends_to_the_column() {
    let mut store = fresh_store();
    stage(&mut store, "proj/tmp/r/f0/cover.png", b"c");
    stage(&mut store, "proj/tmp/r/f1/a.jpg", b"a");
    let req = create_request("proj/tmp/r/f0/cover.png",
        vec!["proj/tmp/r/f1/a.jpg".to_string()]);
    Service::create_album(&mut store, req, "au".to_string(), "iu".to_string(),
        vec!["k1".to_string()]).expect("create succeeds");
    stage(&mut store, "proj/tmp/r2/f0/b.jpg", b"b");
    let add = AddAlbumImagesRequest { images: vec!["proj/tmp/r2/f0/b.jpg".to_string()] };
    let resp = Service::add_album_images(&mut store, "au".to_string(), add,
        vec!["k2".to_string()], Timestamp { secs: 5 }).expect("add succeeds");
    assert_eq!(resp.images, vec!["data/au/k1.jpg".to_string(), "data/au/k2.jpg".to_string()]);
    assert!(store.fs.exists_file("proj/data/au/k2.jpg"));
    assert!(!store.fs.exists_file("proj/tmp/r2/f0/b.jpg"));
}

#[test]
fn remove_images_rewrites_the_column_and_deletes_files() {
    let mut store = fresh_store();
    stage(&mut store, "proj/tmp/r/f0/cover.png", b"c");
    stage(&mut store, "proj/tmp/r/f1/a.jpg", b"a");
    stage(&mut store, "proj/tmp/r/f2/b.jpg", b"b");
    let req = create_request("proj/tmp/r/f0/cover.png",
        vec!["proj/tmp/r/f1/a.jpg".to_string(), "proj/tmp/r/f2/b.jpg".to_string()]);
    Service::create_album(&mut store, req, "au".to_string(), "iu".to_string(),
        vec!["k1".to_string(), "k2".to_string()]).expect("create succeeds");
    let remove = RemoveAlbumImagesRequest { images: vec!["data/au/k1.jpg".to_string()] };
    let resp = Service::remove_album_images(&mut store, "au".to_string(), remove,
        Timestamp { secs: 9 }).expect("remove succeeds");
    assert_eq!(resp.images, vec!["data/au/k2.jpg".to_string()]);
    // removing a path no row ever listed changes nothing and says so
    let noop = RemoveAlbumImagesRequest { images: vec!["data/au/other.jpg".to_string()] };
    let r = Service::remove_album_images(&mut store, "au".to_string(), noop,
        Timestamp { secs: 10 });
    assert_eq!(r.err(), Some(ServiceError::Validation));
}

#[test]
fn delete_album_is_answered_consistently_twice() {
    let mut store = fresh_store();
    stage(&mut store, "proj/tmp/r/f0/cover.png", b"c");
    let req = create_request("proj/tmp/r/f0/cover.png", Vec::new());
    Service::create_album(&mut store, req, "au".to_string(), "iu".to_string(), Vec::new())
        .expect("create succeeds");
    let first = Service::delete_album(&mut store, "au".to_string()).expect("first delete");
    assert_eq!(first, 1);
    let second = Service::delete_album(&mut store, "au".to_string()).expect("second delete");
    assert_eq!(second, 0);
    assert_eq!(store.albums.len(), 0);
}

#[test]
fn created_album_is_queryable_by_uuid() {
    let mut store = fresh_store();
    stage(&mut store, "proj/tmp/r/f0/cover.png", b"c");
    let req = create_request("proj/tmp/r/f0/cover.png", Vec::new());
    Service::create_album(&mut store, req, "au".to_string(), "iu".to_string(), Vec::new())
        .expect("create succeeds");
    let row = Service::get_album_by_uuid(&store, "au").expect("lookup succeeds");
    assert_eq!(row.uuid, "au");
    assert_eq!(row.url, "data/au/iu.png");
    assert_eq!(row.id, 1);
    let missing = Service::get_album_by_uuid(&store, "zz");
    assert_eq!(missing.err(), Some(ServiceError::NotFound));
}

#[test]
fn deleting_missing_files_and_directories_never_errors() {
    let mut store = fresh_store();
    store.fs.delete_file_if_exists("proj/none.txt");
    store.fs.delete_directory_if_exists("proj/nodir");
    store.fs.delete_file_if_exists("proj/none.txt");
    store.fs.delete_directory_if_exists("proj/nodir");
    assert!(!store.fs.exists_file("proj/none.txt"));
    assert!(!store.fs.dir_exists("proj/nodir"));
}

#[test]
fn create_binding_fills_documented_defaults() {
    let mut m = FieldMap::new();
    m.insert("title".to_string(), infer_value("T"));
    m.insert("description".to_string(), infer_value("D"));
    m.insert("cover".to_string(), FieldValue::Str("tmp/r/f/c.png".to_string()));
    let req = CreateAlbumRequest::from_payload_data(&m).expect("binds");
    assert_eq!(req.cover, "tmp/r/f/c.png");
    assert_eq!(req.completed, Some(false));
    assert_eq!(req.enable, Some(true));
    assert_eq!(req.min_age, Some(0));
    assert_eq!(req.tags, Some(String::new()));
    assert_eq!(req.images, Some(Vec::new()));
    assert_eq!(req.released_at, None);
}

#[test]
fn create_binding_rejects_a_missing_cover() {
    let mut m = FieldMap::new();
    m.insert("title".to_string(), infer_value("T"));
    m.insert("description".to_string(), infer_value("D"));
    let r = CreateAlbumRequest::from_payload_data(&m);
    assert_eq!(r.err(), Some(IngestError::Bind));
}
