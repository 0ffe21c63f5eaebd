use media_catalog::fsmodel::FsModel;
use media_catalog::ingest::{Part, parse_payload_data, parse_payload_data_with_ids, ingest_create_album, ingest_add_contents};
use media_catalog::common::IngestError;
use media_catalog::value::FieldValue;
use media_catalog::ids::new_uuid_string;

fn scalar(name: &str, text: &str) -> Part {
    Part { name: name.to_string(), filename: None, data: text.as_bytes().to_vec() }
}

fn upload(name: &str, filename: &str, bytes: &[u8]) -> Part {
    Part { name: name.to_string(), filename: Some(filename.to_string()), data: bytes.to_vec() }
}

fn ids(n: usize) -> Vec<String> {
    (0..n).map(|_| new_uuid_string()).collect()
}

#[test]
fn scalar_fields_are_coerced_and_last_write_wins() {
    let mut fs = FsModel::new();
    let parts = vec![
        scalar("title", "My Album"),
        scalar("min_age", "7"),
        scalar("enable", "true"),
        scalar("title", "Final Title"),
    ];
    let rid = new_uuid_string();
    let fids = ids(4);
    let (m, tmp) = parse_payload_data_with_ids(&mut fs, "proj", parts, &rid, &fids)
        .expect("ingestion must succeed");
    assert_eq!(tmp, format!("proj/tmp/{rid}"));
    match m.get("title") {
        Some(FieldValue::Str(s)) => assert_eq!(s, "Final Title"),
        _ => panic!("title must be the last written string"),
    }
    match m.get("min_age") {
        Some(FieldValue::Int(v)) => assert_eq!(*v, 7),
        _ => panic!("min_age must be an integer"),
    }
    match m.get("enable") {
        Some(FieldValue::Bool(b)) => assert!(b),
        _ => panic!("enable must be a boolean"),
    }
}

#[test]
fn file_parts_are_staged_under_the_request_directory() {
    let mut fs = FsModel::new();
    let parts = vec![upload("cover", "c.png", b"bytes")];
    let rid = new_uuid_string();
    let fids = ids(1);
    let (m, tmp) = parse_payload_data_with_ids(&mut fs, "proj", parts, &rid, &fids)
        .expect("ingestion must succeed");
    let staged = format!("{tmp}/{}/c.png", fids[0]);
    assert!(fs.exists_file(&staged));
    match m.get("cover") {
        Some(FieldValue::Str(s)) => assert_eq!(*s, staged),
        other => panic!("one path under a singular name folds to a scalar, got {other:?}"),
    }
}

#[test]
fn duplicate_path_under_one_name_is_recorded_once() {
    let mut fs = FsModel::new();
    // the same file identifier and name stage the same path twice
    let parts = vec![upload("cover", "c.png", b"one"), upload("cover", "c.png", b"two")];
    let rid = new_uuid_string();
    let fid = new_uuid_string();
    let fids = vec![fid.clone(), fid.clone()];
    let (m, tmp) = parse_payload_data_with_ids(&mut fs, "proj", parts, &rid, &fids)
        .expect("ingestion must succeed");
    let staged = format!("{tmp}/{fid}/c.png");
    match m.get("cover") {
        Some(FieldValue::Str(s)) => assert_eq!(*s, staged),
        other => panic!("the duplicate path must collapse to one entry, got {other:?}"),
    }
}

#[test]
fn plural_name_round_trips_distinct_paths_in_order() {
    let mut fs = FsModel::new();
    let parts = vec![
        scalar("title", "T"),
        scalar("description", "D"),
        upload("cover", "c.png", b"c"),
        upload("images", "a.jpg", b"a"),
        upload("images", "b.jpg", b"b"),
    ];
    let rid = new_uuid_string();
    let fids = ids(5);
    let tmp = format!("proj/tmp/{rid}");
    let expected = vec![
        format!("{tmp}/{}/a.jpg", fids[3]),
        format!("{tmp}/{}/b.jpg", fids[4]),
    ];
    let (req, _) = ingest_create_album(&mut fs, "proj", parts, &rid, &fids)
        .expect("binding must succeed");
    assert_eq!(req.images, Some(expected));
}

#[test]
fn bind_failure_deletes_the_staging_directory() {
    let mut fs = FsModel::new();
    // no title: the create-album schema cannot bind
    let parts = vec![scalar("description", "D"), upload("cover", "c.png", b"c")];
    let rid = new_uuid_string();
    let fids = ids(2);
    let tmp = format!("proj/tmp/{rid}");
    let r = ingest_create_album(&mut fs, "proj", parts, &rid, &fids);
    assert_eq!(r.err(), Some(IngestError::Bind));
    assert!(!fs.dir_exists(&tmp));
    assert!(!fs.exists_file(&format!("{tmp}/{}/c.png", fids[0])));
}

#[test]
fn invalid_utf8_fails_and_cleans_up() {
    let mut fs = FsModel::new();
    let bad = Part { name: "title".to_string(), filename: None, data: vec![0xff, 0xfe] };
    let parts = vec![upload("cover", "c.png", b"c"), bad];
    let rid = new_uuid_string();
    let fids = ids(2);
    let tmp = format!("proj/tmp/{rid}");
    let r = parse_payload_data_with_ids(&mut fs, "proj", parts, &rid, &fids);
    assert_eq!(r.err(), Some(IngestError::InvalidUtf8));
    assert!(!fs.dir_exists(&tmp));
    assert!(!fs.exists_file(&format!("{tmp}/{}/c.png", fids[0])));
}

#[test]
fn fresh_ingestions_use_disjoint_staging_directories() {
    let mut fs = FsModel::new();
    let (_, tmp1) = parse_payload_data(&mut fs, "proj", vec![upload("cover", "c.png", b"1")])
        .expect("first ingestion");
    let (_, tmp2) = parse_payload_data(&mut fs, "proj", vec![upload("cover", "c.png", b"2")])
        .expect("second ingestion");
    assert_ne!(tmp1, tmp2);
    // neither staging directory holds the other's file
    assert!(tmp1.starts_with("proj/tmp/"));
    assert!(tmp2.starts_with("proj/tmp/"));
}

#[test]
fn add_contents_bind_requires_files() {
    let mut fs = FsModel::new();
    let parts = vec![scalar("episode_id", "3")];
    let rid = new_uuid_string();
    let fids = ids(1);
    let r = ingest_add_contents(&mut fs, "proj", parts, &rid, &fids);
    assert_eq!(r.err(), Some(IngestError::Bind));
    let mut fs2 = FsModel::new();
    let parts2 = vec![scalar("episode_id", "3"), upload("files", "f1.png", b"x")];
    let rid2 = new_uuid_string();
    let fids2 = ids(2);
    let (req, _) = ingest_add_contents(&mut fs2, "proj", parts2, &rid2, &fids2)
        .expect("binding must succeed");
    assert_eq!(req.episode_id, 3);
    assert_eq!(req.files.len(), 1);
}
