//! Albums: rows with a cover asset and a multi-valued image list.
//!
//! The create and update flows follow the co-commit protocol: compute the
//! destination paths from fresh identifiers, write the row, and only then
//! move the staged files into place; a failed row write leaves the
//! filesystem untouched, and a count mismatch or a missing staged file
//! after the row write is surfaced as a file-exchange error with the row
//! kept, since the row store is the source of truth.

use vstd::prelude::*;
use crate::common::{RepoError, ServiceError, IngestError};
use crate::fields::{FieldMap, clone_string_vec};
use crate::value::{ValueModel, bool_opt_of, i32_opt_of, str_opt_of, dt_opt_of};
use crate::timefmt::{Timestamp, render_matches, opt_naive_datetime_to_utc_opt_string};
use crate::text::{split_on, join_with, str_views, join_with_sep, split_string};
use crate::paths::{last_segment_of, path_join, with_extension, extension_of, get_data_directory, retain_non_empty, remove_values_from_vec_string, seq_has_string};
use crate::metadata::{mime_of, image_dims_of, get_file_metadata, ImageMetadata};
use crate::fsmodel::FsModel;
use crate::store::{MediaStore, FileMove, album_index_of, lemma_album_index_of, apply_move, apply_moves, apply_moves_dirs, moves_all_present, moves_views, commit_moves, remove_keys_seq};

verus! {

/// An album row.
#[derive(Debug, Clone)]
pub struct Album {
    pub id: i32,
    pub uuid: String,
    pub title: String,
    pub description: String,
    pub completed: bool,
    /// Comma-joined relative asset paths; exploded on read.
    pub images: String,
    pub tags: Option<String>,
    pub enable: bool,
    pub min_age: i32,
    pub url: String,
    pub content_type: String,
    pub width: i32,
    pub height: i32,
    pub bytes: i32,
    pub released_at: Option<Timestamp>,
    pub broken_at: Option<Timestamp>,
    pub created_at: Option<Timestamp>,
    pub updated_at: Option<Timestamp>,
}

/// A field-for-field copy of an optional string.
pub fn clone_opt_string(o: &Option<String>) -> (r: Option<String>)
    ensures
        r == *o,
{
    match o {
        Some(s) => Some(s.clone()),
        None => None,
    }
}

impl Album {
    /// A field-for-field copy of the row.
    pub fn clone_row(&self) -> (r: Album)
        ensures
            r == *self,
    {
        Album {
            id: self.id,
            uuid: self.uuid.clone(),
            title: self.title.clone(),
            description: self.description.clone(),
            completed: self.completed,
            images: self.images.clone(),
            tags: clone_opt_string(&self.tags),
            enable: self.enable,
            min_age: self.min_age,
            url: self.url.clone(),
            content_type: self.content_type.clone(),
            width: self.width,
            height: self.height,
            bytes: self.bytes,
            released_at: self.released_at,
            broken_at: self.broken_at,
            created_at: self.created_at,
            updated_at: self.updated_at,
        }
    }
}

/// The row to insert for a new album; the store assigns the id.
#[derive(Debug, Clone)]
pub struct NewAlbum {
    pub uuid: String,
    pub title: String,
    pub description: String,
    pub completed: bool,
    pub images: String,
    pub tags: Option<String>,
    pub enable: bool,
    pub min_age: i32,
    pub url: String,
    pub content_type: String,
    pub width: i32,
    pub height: i32,
    pub bytes: i32,
    pub released_at: Option<Timestamp>,
}

/// The outward projection of an album row.
#[derive(Debug, Clone, PartialEq, Eq)]
pub struct AlbumResponse {
    pub id: i32,
    pub uuid: String,
    pub title: String,
    pub description: String,
    pub completed: bool,
    pub images: Vec<String>,
    pub tags: Option<String>,
    pub enable: bool,
    pub min_age: i32,
    pub url: String,
    pub content_type: String,
    pub width: i32,
    pub height: i32,
    pub bytes: i32,
    pub released_at: Option<String>,
    pub broken_at: Option<String>,
    pub created_at: Option<String>,
    pub updated_at: Option<String>,
}

/// The view of an optional string.
pub open spec fn opt_str_view(o: Option<String>) -> Option<Seq<char>> {
    match o {
        Some(s) => Some(s@),
        None => None,
    }
}

/// What a joined image column explodes to: its pieces, empty ones
/// dropped.
pub open spec fn response_images_of(images: Seq<char>) -> Seq<Seq<char>> {
    split_on(images, ',').filter(|s: Seq<char>| s.len() != 0)
}

/// How a response relates to the row it projects.
pub open spec fn album_response_matches(a: Album, r: AlbumResponse) -> bool {
    &&& r.id == a.id
    &&& r.uuid == a.uuid
    &&& r.title == a.title
    &&& r.description == a.description
    &&& r.completed == a.completed
    &&& str_views(r.images@) == response_images_of(a.images@)
    &&& r.tags == a.tags
    &&& r.enable == a.enable
    &&& r.min_age == a.min_age
    &&& r.url == a.url
    &&& r.content_type == a.content_type
    &&& r.width == a.width
    &&& r.height == a.height
    &&& r.bytes == a.bytes
    &&& render_matches(a.released_at, opt_str_view(r.released_at))
    &&& render_matches(a.broken_at, opt_str_view(r.broken_at))
    &&& render_matches(a.created_at, opt_str_view(r.created_at))
    &&& render_matches(a.updated_at, opt_str_view(r.updated_at))
}

/// Mapping a filter over string views commutes with filtering the views.
proof fn lemma_str_views_filter_non_empty(v: Seq<String>)
    ensures
        str_views(v.filter(|s: String| s@.len() != 0))
            =~= str_views(v).filter(|t: Seq<char>| t.len() != 0),
    decreases v.len(),
{
    reveal(Seq::filter);
    if v.len() > 0 {
        lemma_str_views_filter_non_empty(v.drop_last());
        assert(str_views(v).drop_last() =~= str_views(v.drop_last()));
        assert(str_views(v).last() == v.last()@);
        if v.last()@.len() != 0 {
            assert(str_views(v.filter(|s: String| s@.len() != 0))
                =~= str_views(v.drop_last().filter(|s: String| s@.len() != 0)).push(v.last()@));
        }
    }
}

impl AlbumResponse {
    /// Project a row: explode the image column, render the timestamps.
    pub fn from_album(album: Album) -> (r: Self)
        ensures
            album_response_matches(album, r),
    {
        let mut images = split_string(album.images.as_str(), ',');
        proof {
            lemma_str_views_filter_non_empty(images@.filter(|s: String| s@.len() != 0));
        }
        let ghost pre_filter = images@;
        retain_non_empty(&mut images);
        proof {
            lemma_str_views_filter_non_empty(pre_filter);
            assert(str_views(images@) =~= response_images_of(album.images@));
        }
        AlbumResponse {
            id: album.id,
            uuid: album.uuid,
            title: album.title,
            description: album.description,
            completed: album.completed,
            images,
            tags: album.tags,
            enable: album.enable,
            min_age: album.min_age,
            url: album.url,
            content_type: album.content_type,
            width: album.width,
            height: album.height,
            bytes: album.bytes,
            released_at: opt_naive_datetime_to_utc_opt_string(album.released_at),
            broken_at: opt_naive_datetime_to_utc_opt_string(album.broken_at),
            created_at: opt_naive_datetime_to_utc_opt_string(album.created_at),
            updated_at: opt_naive_datetime_to_utc_opt_string(album.updated_at),
        }
    }
}

/// The request to create an album.
#[derive(Debug, Clone)]
pub struct CreateAlbumRequest {
    pub title: String,
    pub description: String,
    /// Staged path of the album cover.
    pub cover: String,
    /// Staged paths of the description images.
    pub images: Option<Vec<String>>,
    pub completed: Option<bool>,
    pub tags: Option<String>,
    pub enable: Option<bool>,
    pub min_age: Option<i32>,
    pub released_at: Option<Timestamp>,
}

/// The staged image paths of a create request.
pub open spec fn req_images_views(images: Option<Vec<String>>) -> Seq<Seq<char>> {
    match images {
        Some(l) => str_views(l@),
        None => Seq::<Seq<char>>::empty(),
    }
}

/// When the create-album binding succeeds: string `title` and
/// `description`, and at least one staged cover path.
pub open spec fn create_album_binds(m: Map<Seq<char>, ValueModel>) -> bool {
    &&& m.dom().contains("title"@) && m["title"@] is Str
    &&& m.dom().contains("description"@) && m["description"@] is Str
    &&& m.dom().contains("cover"@) && crate::fields::paths_of_value(m["cover"@]).len() >= 1
}

/// How a bound create request relates to the merged field map.
pub open spec fn create_album_bound(m: Map<Seq<char>, ValueModel>, req: CreateAlbumRequest) -> bool {
    &&& m["title"@] == ValueModel::Str(req.title@)
    &&& m["description"@] == ValueModel::Str(req.description@)
    &&& req.cover@ == crate::fields::paths_of_value(m["cover"@])[0]
    &&& req.images matches Some(l) && str_views(l@) == if m.dom().contains("images"@) {
        crate::fields::paths_of_value(m["images"@])
    } else {
        Seq::<Seq<char>>::empty()
    }
    &&& req.completed == if m.dom().contains("completed"@) {
        bool_opt_of(m["completed"@])
    } else {
        Some(false)
    }
    &&& opt_str_view(req.tags) == if m.dom().contains("tags"@) {
        str_opt_of(m["tags"@])
    } else {
        Some(Seq::<char>::empty())
    }
    &&& req.enable == if m.dom().contains("enable"@) {
        bool_opt_of(m["enable"@])
    } else {
        Some(true)
    }
    &&& req.min_age == if m.dom().contains("min_age"@) {
        i32_opt_of(m["min_age"@])
    } else {
        Some(0)
    }
    &&& match req.released_at {
        Some(t) => m.dom().contains("released_at"@) && dt_opt_of(m["released_at"@]) == Some(t.secs),
        None => !m.dom().contains("released_at"@) || dt_opt_of(m["released_at"@]) is None,
    }
}

impl CreateAlbumRequest {
    /// Bind the merged field map; missing title, description or cover is
    /// rejected.
    pub fn from_payload_data(payload_data: &FieldMap) -> (r: Result<Self, IngestError>)
        requires
            payload_data.inv(),
        ensures
            r is Ok <==> create_album_binds(payload_data@),
            r matches Ok(req) ==> create_album_bound(payload_data@, req),
            r matches Err(e) ==> e == IngestError::Bind,
    {
        let title = match payload_data.get_string("title") {
            Some(t) => t,
            None => {
                return Err(IngestError::Bind);
            },
        };
        let description = match payload_data.get_string("description") {
            Some(d) => d,
            None => {
                return Err(IngestError::Bind);
            },
        };
        let cover_paths = payload_data.get_paths("cover");
        if cover_paths.len() == 0 {
            return Err(IngestError::Bind);
        }
        let cover = cover_paths[0].clone();
        let images = if payload_data.contains_key("images") {
            payload_data.get_paths("images")
        } else {
            let e: Vec<String> = Vec::new();
            proof {
                assert(str_views(e@) =~= Seq::<Seq<char>>::empty());
            }
            e
        };
        let completed = if payload_data.contains_key("completed") {
            payload_data.get_bool("completed")
        } else {
            Some(false)
        };
        let tags = if payload_data.contains_key("tags") {
            payload_data.get_string("tags")
        } else {
            let e = String::new();
            proof {
                assert(e@ =~= Seq::<char>::empty());
            }
            Some(e)
        };
        let enable = if payload_data.contains_key("enable") {
            payload_data.get_bool("enable")
        } else {
            Some(true)
        };
        let min_age = if payload_data.contains_key("min_age") {
            payload_data.get_i32("min_age")
        } else {
            Some(0)
        };
        let released_at = if payload_data.contains_key("released_at") {
            payload_data.get_datetime("released_at")
        } else {
            None
        };
        Ok(CreateAlbumRequest {
            title,
            description,
            cover,
            images: Some(images),
            completed,
            tags,
            enable,
            min_age,
            released_at,
        })
    }
}

/// The request to update an album.
#[derive(Debug, Clone)]
pub struct UpdateAlbumRequest {
    pub title: String,
    pub description: String,
    /// Staged path of a replacement cover, when one was uploaded.
    pub cover: Option<String>,
    pub completed: Option<bool>,
    pub tags: Option<String>,
    pub enable: Option<bool>,
    pub min_age: Option<i32>,
    pub released_at: Option<Timestamp>,
    pub broken_at: Option<Timestamp>,
}

/// When the update-album binding succeeds.
pub open spec fn update_album_binds(m: Map<Seq<char>, ValueModel>) -> bool {
    &&& m.dom().contains("title"@) && m["title"@] is Str
    &&& m.dom().contains("description"@) && m["description"@] is Str
}

/// How a bound update request relates to the merged field map.
pub open spec fn update_album_bound(m: Map<Seq<char>, ValueModel>, req: UpdateAlbumRequest) -> bool {
    &&& m["title"@] == ValueModel::Str(req.title@)
    &&& m["description"@] == ValueModel::Str(req.description@)
    &&& opt_str_view(req.cover) == {
        let ps = if m.dom().contains("cover"@) {
            crate::fields::paths_of_value(m["cover"@])
        } else {
            Seq::<Seq<char>>::empty()
        };
        if ps.len() == 0 {
            None
        } else {
            Some(ps[0])
        }
    }
    &&& req.completed == if m.dom().contains("completed"@) {
        bool_opt_of(m["completed"@])
    } else {
        None
    }
    &&& opt_str_view(req.tags) == if m.dom().contains("tags"@) {
        str_opt_of(m["tags"@])
    } else {
        None
    }
    &&& req.enable == if m.dom().contains("enable"@) {
        bool_opt_of(m["enable"@])
    } else {
        None
    }
    &&& req.min_age == if m.dom().contains("min_age"@) {
        i32_opt_of(m["min_age"@])
    } else {
        None
    }
    &&& match req.released_at {
        Some(t) => m.dom().contains("released_at"@) && dt_opt_of(m["released_at"@]) == Some(t.secs),
        None => !m.dom().contains("released_at"@) || dt_opt_of(m["released_at"@]) is None,
    }
    &&& match req.broken_at {
        Some(t) => m.dom().contains("broken_at"@) && dt_opt_of(m["broken_at"@]) == Some(t.secs),
        None => !m.dom().contains("broken_at"@) || dt_opt_of(m["broken_at"@]) is None,
    }
}

impl UpdateAlbumRequest {
    /// Bind the merged field map; missing title or description is
    /// rejected, everything else is optional.
    pub fn from_payload_data(payload_data: &FieldMap) -> (r: Result<Self, IngestError>)
        requires
            payload_data.inv(),
        ensures
            r is Ok <==> update_album_binds(payload_data@),
            r matches Ok(req) ==> update_album_bound(payload_data@, req),
            r matches Err(e) ==> e == IngestError::Bind,
    {
        let title = match payload_data.get_string("title") {
            Some(t) => t,
            None => {
                return Err(IngestError::Bind);
            },
        };
        let description = match payload_data.get_string("description") {
            Some(d) => d,
            None => {
                return Err(IngestError::Bind);
            },
        };
        let cover_paths = if payload_data.contains_key("cover") {
            payload_data.get_paths("cover")
        } else {
            Vec::new()
        };
        let cover = if cover_paths.len() == 0 {
            None
        } else {
            Some(cover_paths[0].clone())
        };
        let completed = if payload_data.contains_key("completed") {
            payload_data.get_bool("completed")
        } else {
            None
        };
        let tags = if payload_data.contains_key("tags") {
            payload_data.get_string("tags")
        } else {
            None
        };
        let enable = if payload_data.contains_key("enable") {
            payload_data.get_bool("enable")
        } else {
            None
        };
        let min_age = if payload_data.contains_key("min_age") {
            payload_data.get_i32("min_age")
        } else {
            None
        };
        let released_at = if payload_data.contains_key("released_at") {
            payload_data.get_datetime("released_at")
        } else {
            None
        };
        let broken_at = if payload_data.contains_key("broken_at") {
            payload_data.get_datetime("broken_at")
        } else {
            None
        };
        Ok(UpdateAlbumRequest {
            title,
            description,
            cover,
            completed,
            tags,
            enable,
            min_age,
            released_at,
            broken_at,
        })
    }
}

/// The request to add description images to an album.
#[derive(Debug, Clone)]
pub struct AddAlbumImagesRequest {
    pub images: Vec<String>,
}

impl AddAlbumImagesRequest {
    /// Bind the merged field map; absent images bind to an empty list.
    pub fn from_payload_data(payload_data: &FieldMap) -> (r: Result<Self, IngestError>)
        requires
            payload_data.inv(),
        ensures
            r matches Ok(req) ==> str_views(req.images@) == if payload_data@.dom().contains(
                "images"@,
            ) {
                crate::fields::paths_of_value(payload_data@["images"@])
            } else {
                Seq::<Seq<char>>::empty()
            },
            r is Ok,
    {
        let images = if payload_data.contains_key("images") {
            payload_data.get_paths("images")
        } else {
            let e: Vec<String> = Vec::new();
            proof {
                assert(str_views(e@) =~= Seq::<Seq<char>>::empty());
            }
            e
        };
        Ok(AddAlbumImagesRequest { images })
    }
}

/// The request to remove description images from an album.
#[derive(Debug, Clone)]
pub struct RemoveAlbumImagesRequest {
    pub images: Vec<String>,
}

/// The path a row stores for the cover of a new album: under the album's
/// UUID directory, named by a fresh key, with the extension of the
/// uploaded file's name.
pub open spec fn album_asset_url(album_uuid: Seq<char>, key: Seq<char>, ext: Seq<char>) -> Seq<
    char,
> {
    "data"@ + seq!['/'] + album_uuid + seq!['/'] + key + seq!['.'] + ext
}

/// The cover's destination path: extension taken from the uploaded file
/// name.
pub open spec fn create_cover_url(album_uuid: Seq<char>, key: Seq<char>, cover_src: Seq<char>) -> Seq<char> {
    album_asset_url(album_uuid, key, last_segment_of(last_segment_of(cover_src, '/'), '.'))
}

/// The destination paths of the description images: extensions taken from
/// the staged paths.
pub open spec fn image_urls_spec(
    album_uuid: Seq<char>,
    image_uuids: Seq<Seq<char>>,
    srcs: Seq<Seq<char>>,
) -> Seq<Seq<char>> {
    Seq::new(srcs.len(), |i: int| album_asset_url(album_uuid, image_uuids[i], last_segment_of(srcs[i], '.')))
}

/// The width column: the decoded width when the MIME type says image and
/// the bytes decode, zero otherwise.
pub open spec fn image_width_of(fsm: Map<Seq<char>, Seq<u8>>, p: Seq<char>) -> u32 {
    if crate::text::is_prefix_of("image/"@, mime_of(p)) {
        match image_dims_of(fsm[p]) {
            Some(d) => d.0,
            None => 0,
        }
    } else {
        0
    }
}

/// The height column, likewise.
pub open spec fn image_height_of(fsm: Map<Seq<char>, Seq<u8>>, p: Seq<char>) -> u32 {
    if crate::text::is_prefix_of("image/"@, mime_of(p)) {
        match image_dims_of(fsm[p]) {
            Some(d) => d.1,
            None => 0,
        }
    } else {
        0
    }
}

/// How the inserted row relates to the request, the fresh identifiers and
/// the staged cover's bytes.
pub open spec fn new_album_matches(
    fsm: Map<Seq<char>, Seq<u8>>,
    req: CreateAlbumRequest,
    album_uuid: Seq<char>,
    image_uuid: Seq<char>,
    image_uuids: Seq<Seq<char>>,
    n: NewAlbum,
) -> bool {
    &&& n.uuid@ == album_uuid
    &&& n.title == req.title
    &&& n.description == req.description
    &&& n.completed == (match req.completed {
        Some(b) => b,
        None => false,
    })
    &&& n.images@ == join_with(image_urls_spec(album_uuid, image_uuids, req_images_views(req.images)), ',')
    &&& n.tags == req.tags
    &&& n.enable == (match req.enable {
        Some(b) => b,
        None => true,
    })
    &&& n.min_age == (match req.min_age {
        Some(v) => v,
        None => 0,
    })
    &&& n.url@ == create_cover_url(album_uuid, image_uuid, req.cover@)
    &&& n.content_type@ == mime_of(req.cover@)
    &&& n.width == image_width_of(fsm, req.cover@) as i32
    &&& n.height == image_height_of(fsm, req.cover@) as i32
    &&& n.bytes == fsm[req.cover@].len() as u64 as i32
    &&& n.released_at == req.released_at
}

impl NewAlbum {
    /// Compute the row for a new album: destination paths from the fresh
    /// identifiers, media columns from the staged cover.  The one failure
    /// is a cover missing from the staging area.
    pub fn from_request(
        fs: &FsModel,
        req: CreateAlbumRequest,
        album_uuid: String,
        image_uuid: String,
        image_uuids: &Vec<String>,
    ) -> (r: Result<NewAlbum, ServiceError>)
        requires
            fs.inv(),
            image_uuids@.len() == req_images_views(req.images).len(),
        ensures
            r is Ok <==> fs@.dom().contains(req.cover@),
            r matches Ok(n) ==> new_album_matches(fs@, req, album_uuid@, image_uuid@,
                str_views(image_uuids@), n),
            r matches Err(e) ==> e == ServiceError::Validation,
    {
        let m = match get_file_metadata(fs, req.cover.as_str()) {
            Some(m) => m,
            None => {
                return Err(ServiceError::Validation);
            },
        };
        let data_dir = get_data_directory();
        let album_dir = path_join(data_dir.as_str(), album_uuid.as_str());
        let ext = extension_of(m.original_name.as_str());
        let url = with_extension(
            path_join(album_dir.as_str(), image_uuid.as_str()).as_str(),
            ext.as_str(),
        );
        let srcs: Vec<String> = match &req.images {
            Some(v) => clone_string_vec(v),
            None => Vec::new(),
        };
        let ghost urls_spec = image_urls_spec(album_uuid@, str_views(image_uuids@),
            req_images_views(req.images));
        let mut urls: Vec<String> = Vec::new();
        let mut i: usize = 0;
        while i < srcs.len()
            invariant
                fs.inv(),
                srcs@.len() == image_uuids@.len(),
                str_views(srcs@) == req_images_views(req.images),
                urls_spec == image_urls_spec(album_uuid@, str_views(image_uuids@),
                    req_images_views(req.images)),
                album_dir@ == "data"@ + seq!['/'] + album_uuid@,
                i <= srcs@.len(),
                str_views(urls@) =~= urls_spec.take(i as int),
            decreases srcs@.len() - i,
        {
            let e = extension_of(srcs[i].as_str());
            let u = with_extension(
                path_join(album_dir.as_str(), image_uuids[i].as_str()).as_str(),
                e.as_str(),
            );
            proof {
                assert(u@ == urls_spec[i as int]);
            }
            let ghost pre_urls = urls@;
            let ghost uv = u@;
            urls.push(u);
            proof {
                assert(str_views(urls@) =~= str_views(pre_urls).push(uv)) by {
                    assert(forall|k: int| 0 <= k < pre_urls.len()
                        ==> #[trigger] urls@[k] == pre_urls[k]);
                }
                assert(str_views(urls@) =~= urls_spec.take(i + 1));
            }
            i += 1;
        }
        proof {
            assert(urls_spec.take(urls_spec.len() as int) =~= urls_spec);
        }
        proof {
            reveal_strlit(",");
            assert(","@ =~= seq![',']);
        }
        let images = join_with_sep(&urls, ",");
        let width_src = match m.image_data {
            Some(d) => d,
            None => ImageMetadata::default(),
        };
        let width_val: u32 = width_src.width;
        let height_val: u32 = width_src.height;
        Ok(NewAlbum {
            uuid: album_uuid,
            title: req.title,
            description: req.description,
            completed: match req.completed {
                Some(b) => b,
                None => false,
            },
            images,
            tags: req.tags,
            enable: match req.enable {
                Some(b) => b,
                None => true,
            },
            min_age: match req.min_age {
                Some(v) => v,
                None => 0,
            },
            url,
            content_type: m.content_type,
            width: #[verifier::truncate] (width_val as i32),
            height: #[verifier::truncate] (height_val as i32),
            bytes: #[verifier::truncate] (m.size as i32),
            released_at: req.released_at,
        })
    }
}

/// How an inserted album row relates to the new-album values.
pub open spec fn album_row_of_new(n: NewAlbum, id: int, a: Album) -> bool {
    &&& a.id == id
    &&& a.uuid == n.uuid
    &&& a.title == n.title
    &&& a.description == n.description
    &&& a.completed == n.completed
    &&& a.images == n.images
    &&& a.tags == n.tags
    &&& a.enable == n.enable
    &&& a.min_age == n.min_age
    &&& a.url == n.url
    &&& a.content_type == n.content_type
    &&& a.width == n.width
    &&& a.height == n.height
    &&& a.bytes == n.bytes
    &&& a.released_at == n.released_at
    &&& a.broken_at is None
    &&& a.created_at is None
    &&& a.updated_at is None
}

/// The update's fields with the key column kept: row-store changesets
/// never touch the primary key.
pub open spec fn album_with_id(a: Album, id: i32) -> Album {
    Album {
        id,
        uuid: a.uuid,
        title: a.title,
        description: a.description,
        completed: a.completed,
        images: a.images,
        tags: a.tags,
        enable: a.enable,
        min_age: a.min_age,
        url: a.url,
        content_type: a.content_type,
        width: a.width,
        height: a.height,
        bytes: a.bytes,
        released_at: a.released_at,
        broken_at: a.broken_at,
        created_at: a.created_at,
        updated_at: a.updated_at,
    }
}

/// The row operations on the album table.
pub struct Repository;

impl Repository {
    /// Insert an album row; the UUID must be fresh, as the row store's
    /// unique constraint demands.
    pub fn create_album(store: &mut MediaStore, new_album: NewAlbum) -> (r: Result<
        Album,
        RepoError,
    >)
        requires
            old(store).inv(),
        ensures
            final(store).inv(),
            final(store).fs == old(store).fs,
            final(store).project_dir == old(store).project_dir,
            final(store).episodes@ == old(store).episodes@,
            final(store).contents@ == old(store).contents@,
            final(store).categories@ == old(store).categories@,
            r is Ok <==> album_index_of(old(store).albums@, new_album.uuid@) == -1
                && old(store).next_album_id < i32::MAX,
            r matches Ok(a) ==> album_row_of_new(new_album, old(store).next_album_id as int, a)
                && final(store).albums@ == old(store).albums@.push(a)
                && final(store).next_album_id == old(store).next_album_id + 1,
            r is Err ==> *final(store) == *old(store)
                && (r matches Err(e) && e == RepoError::Conflict),
    {
        proof {
            lemma_album_index_of(store.albums@, new_album.uuid@);
        }
        match store.get_album_by_uuid(new_album.uuid.as_str()) {
            Ok(_) => {
                return Err(RepoError::Conflict);
            },
            Err(_) => {},
        }
        if store.next_album_id == i32::MAX {
            return Err(RepoError::Conflict);
        }
        let id = store.next_album_id;
        store.next_album_id = id + 1;
        let row = Album {
            id,
            uuid: new_album.uuid,
            title: new_album.title,
            description: new_album.description,
            completed: new_album.completed,
            images: new_album.images,
            tags: new_album.tags,
            enable: new_album.enable,
            min_age: new_album.min_age,
            url: new_album.url,
            content_type: new_album.content_type,
            width: new_album.width,
            height: new_album.height,
            bytes: new_album.bytes,
            released_at: new_album.released_at,
            broken_at: None,
            created_at: None,
            updated_at: None,
        };
        let out = row.clone_row();
        store.albums.push(row);
        proof {
            lemma_album_index_of(old(store).albums@, out.uuid@);
            assert(forall|i: int| 0 <= i < old(store).albums@.len()
                ==> #[trigger] store.albums@[i] == old(store).albums@[i]);
        }
        Ok(out)
    }

    /// Update the album row whose UUID matches; the count of changed rows.
    pub fn update_album(store: &mut MediaStore, update_album: Album) -> (r: Result<
        usize,
        RepoError,
    >)
        requires
            old(store).inv(),
        ensures
            final(store).inv(),
            final(store).fs == old(store).fs,
            final(store).project_dir == old(store).project_dir,
            final(store).episodes@ == old(store).episodes@,
            final(store).contents@ == old(store).contents@,
            final(store).categories@ == old(store).categories@,
            final(store).next_album_id == old(store).next_album_id,
            r is Ok,
            r matches Ok(n) ==> {
                let idx = album_index_of(old(store).albums@, update_album.uuid@);
                if idx == -1 {
                    n == 0 && final(store).albums@ == old(store).albums@
                } else {
                    n == 1 && final(store).albums@ == old(store).albums@.update(idx,
                        album_with_id(update_album, old(store).albums@[idx].id))
                }
            },
    {
        proof {
            lemma_album_index_of(store.albums@, update_album.uuid@);
        }
        let mut i: usize = 0;
        while i < store.albums.len()
            invariant
                old(store).inv(),
                i <= store.albums@.len(),
                store == old(store),
                forall|j: int| 0 <= j < i ==> store.albums@[j].uuid@ != update_album.uuid@,
            decreases store.albums@.len() - i,
        {
            if crate::text::str_eq(store.albums[i].uuid.as_str(), update_album.uuid.as_str()) {
                proof {
                    crate::store::lemma_album_first(store.albums@, i as int, update_album.uuid@);
                }
                let kept_id = store.albums[i].id;
                let row = Album {
                    id: kept_id,
                    uuid: update_album.uuid,
                    title: update_album.title,
                    description: update_album.description,
                    completed: update_album.completed,
                    images: update_album.images,
                    tags: update_album.tags,
                    enable: update_album.enable,
                    min_age: update_album.min_age,
                    url: update_album.url,
                    content_type: update_album.content_type,
                    width: update_album.width,
                    height: update_album.height,
                    bytes: update_album.bytes,
                    released_at: update_album.released_at,
                    broken_at: update_album.broken_at,
                    created_at: update_album.created_at,
                    updated_at: update_album.updated_at,
                };
                let ghost pre = store.albums@;
                store.albums.set(i, row);
                proof {
                    assert(forall|a: int| 0 <= a < store.albums@.len() && a != i
                        ==> #[trigger] store.albums@[a] == pre[a]);
                    assert(store.albums@[i as int].uuid@ == pre[i as int].uuid@);
                    assert(store.albums@[i as int].id == pre[i as int].id);
                    assert forall|a: int, b: int| 0 <= a < b < store.albums@.len()
                        implies store.albums@[a].uuid@ != store.albums@[b].uuid@
                            && store.albums@[a].id != store.albums@[b].id by {
                        assert(pre[a].uuid@ != pre[b].uuid@);
                        assert(pre[a].id != pre[b].id);
                    }
                }
                return Ok(1);
            }
            i += 1;
        }
        Ok(0)
    }

    /// Delete the album row whose UUID matches; the count of removed rows.
    pub fn delete_album(store: &mut MediaStore, album_uuid: &str) -> (r: Result<usize, RepoError>)
        requires
            old(store).inv(),
        ensures
            final(store).inv(),
            final(store).fs == old(store).fs,
            final(store).project_dir == old(store).project_dir,
            final(store).episodes@ == old(store).episodes@,
            final(store).contents@ == old(store).contents@,
            final(store).categories@ == old(store).categories@,
            r is Ok,
            r matches Ok(n) ==> {
                let idx = album_index_of(old(store).albums@, album_uuid@);
                if idx == -1 {
                    n == 0 && final(store).albums@ == old(store).albums@
                } else {
                    n == 1 && final(store).albums@ == old(store).albums@.remove(idx)
                }
            },
    {
        proof {
            lemma_album_index_of(store.albums@, album_uuid@);
        }
        let mut i: usize = 0;
        while i < store.albums.len()
            invariant
                old(store).inv(),
                i <= store.albums@.len(),
                store == old(store),
                forall|j: int| 0 <= j < i ==> store.albums@[j].uuid@ != album_uuid@,
            decreases store.albums@.len() - i,
        {
            if crate::text::str_eq(store.albums[i].uuid.as_str(), album_uuid) {
                proof {
                    crate::store::lemma_album_first(store.albums@, i as int, album_uuid@);
                }
                let ghost pre = store.albums@;
                store.albums.remove(i);
                proof {
                    assert(forall|a: int| 0 <= a < store.albums@.len()
                        ==> store.albums@[a] == (if a < i { pre[a] } else { pre[a + 1] }));
                    assert forall|a: int, b: int| 0 <= a < b < store.albums@.len()
                        implies store.albums@[a].uuid@ != store.albums@[b].uuid@ by {
                        let pa: int = if a < i { a } else { a + 1 };
                        let pb: int = if b < i { b } else { b + 1 };
                        assert(pre[pa].uuid@ != pre[pb].uuid@);
                    }
                }
                return Ok(1);
            }
            i += 1;
        }
        Ok(0)
    }
}

/// The destination paths an album create commits to, as the response
/// will list them: the joined column exploded again.
pub open spec fn create_album_dests(
    album_uuid: Seq<char>,
    image_uuids: Seq<Seq<char>>,
    srcs: Seq<Seq<char>>,
) -> Seq<Seq<char>> {
    response_images_of(join_with(image_urls_spec(album_uuid, image_uuids, srcs), ','))
}

/// The moves an album create performs: the cover first, then each image,
/// every destination under the project directory.
pub open spec fn create_album_pairs(
    project: Seq<char>,
    cover_src: Seq<char>,
    cover_url: Seq<char>,
    srcs: Seq<Seq<char>>,
    dests: Seq<Seq<char>>,
) -> Seq<(Seq<char>, Seq<char>)> {
    seq![(cover_src, project + seq!['/'] + cover_url)]
        + Seq::new(srcs.len(), |i: int| (srcs[i], project + seq!['/'] + dests[i]))
}

/// How the inserted album row relates to the request, the fresh
/// identifiers and the staged bytes.
pub open spec fn created_album_matches(
    fsm: Map<Seq<char>, Seq<u8>>,
    req: CreateAlbumRequest,
    album_uuid: Seq<char>,
    image_uuid: Seq<char>,
    image_uuids: Seq<Seq<char>>,
    id: int,
    a: Album,
) -> bool {
    &&& a.id == id
    &&& a.uuid@ == album_uuid
    &&& a.title == req.title
    &&& a.description == req.description
    &&& a.completed == (match req.completed {
        Some(b) => b,
        None => false,
    })
    &&& a.images@ == join_with(image_urls_spec(album_uuid, image_uuids, req_images_views(req.images)), ',')
    &&& a.tags == req.tags
    &&& a.enable == (match req.enable {
        Some(b) => b,
        None => true,
    })
    &&& a.min_age == (match req.min_age {
        Some(v) => v,
        None => 0,
    })
    &&& a.url@ == create_cover_url(album_uuid, image_uuid, req.cover@)
    &&& a.content_type@ == mime_of(req.cover@)
    &&& a.width == image_width_of(fsm, req.cover@) as i32
    &&& a.height == image_height_of(fsm, req.cover@) as i32
    &&& a.bytes == fsm[req.cover@].len() as u64 as i32
    &&& a.released_at == req.released_at
    &&& a.broken_at is None
    &&& a.created_at is None
    &&& a.updated_at is None
}

/// Which way an album create ends, decided by the protocol order:
/// validate the staged cover, write the row, then move the files.
pub open spec fn create_album_outcome(
    pre: MediaStore,
    req: CreateAlbumRequest,
    album_uuid: Seq<char>,
    image_uuid: Seq<char>,
    image_uuids: Seq<Seq<char>>,
) -> Result<(), ServiceError> {
    let srcs = req_images_views(req.images);
    let dests = create_album_dests(album_uuid, image_uuids, srcs);
    let pairs = create_album_pairs(pre.project_dir@, req.cover@,
        create_cover_url(album_uuid, image_uuid, req.cover@), srcs, dests);
    if !pre.fs@.dom().contains(req.cover@) {
        Err(ServiceError::Validation)
    } else if album_index_of(pre.albums@, album_uuid) != -1 || pre.next_album_id == i32::MAX {
        Err(ServiceError::Persistence)
    } else if dests.len() != srcs.len() {
        Err(ServiceError::FileExchange)
    } else if !moves_all_present(pre.fs@, pairs) {
        Err(ServiceError::FileExchange)
    } else {
        Ok(())
    }
}

/// The album service: the create/update-with-files protocol over the
/// store.
pub struct Service;

impl Service {
    /// Create an album: validate the staged cover, compute the
    /// destination paths from the fresh identifiers, insert the row, and
    /// only then move the staged files into place.  A failed row write
    /// leaves the filesystem untouched; after the row is in, a count
    /// mismatch or a staged file missing at its move is reported as a
    /// file-exchange error with the row kept.
    pub fn create_album(
        store: &mut MediaStore,
        req_data: CreateAlbumRequest,
        album_uuid: String,
        image_uuid: String,
        image_uuids: Vec<String>,
    ) -> (r: Result<AlbumResponse, ServiceError>)
        requires
            old(store).inv(),
            image_uuids@.len() == req_images_views(req_data.images).len(),
        ensures
            final(store).inv(),
            final(store).project_dir == old(store).project_dir,
            final(store).episodes@ == old(store).episodes@,
            final(store).contents@ == old(store).contents@,
            final(store).categories@ == old(store).categories@,
            r is Ok <==> create_album_outcome(*old(store), req_data, album_uuid@, image_uuid@,
                str_views(image_uuids@)) is Ok,
            r matches Err(e) ==> create_album_outcome(*old(store), req_data, album_uuid@,
                image_uuid@, str_views(image_uuids@)) == Err::<(), ServiceError>(e),
            (r matches Err(e) && (e == ServiceError::Validation || e == ServiceError::Persistence))
                ==> *final(store) == *old(store),
            (r is Ok || (r matches Err(e) && e == ServiceError::FileExchange)) ==> {
                &&& final(store).albums@.len() == old(store).albums@.len() + 1
                &&& final(store).albums@ == old(store).albums@.push(final(store).albums@.last())
                &&& created_album_matches(old(store).fs@, req_data, album_uuid@, image_uuid@,
                    str_views(image_uuids@), old(store).next_album_id as int,
                    final(store).albums@.last())
                &&& final(store).next_album_id == old(store).next_album_id + 1
            },
            r matches Ok(resp) ==> {
                let srcs = req_images_views(req_data.images);
                let dests = create_album_dests(album_uuid@, str_views(image_uuids@), srcs);
                let pairs = create_album_pairs(old(store).project_dir@, req_data.cover@,
                    create_cover_url(album_uuid@, image_uuid@, req_data.cover@), srcs, dests);
                &&& album_response_matches(final(store).albums@.last(), resp)
                &&& final(store).fs@ == apply_moves(old(store).fs@, pairs)
                &&& final(store).fs.dirs_view() == apply_moves_dirs(old(store).fs.dirs_view(),
                    pairs)
            },
            (r matches Err(e) && e == ServiceError::FileExchange) ==> {
                let srcs = req_images_views(req_data.images);
                let dests = create_album_dests(album_uuid@, str_views(image_uuids@), srcs);
                let pairs = create_album_pairs(old(store).project_dir@, req_data.cover@,
                    create_cover_url(album_uuid@, image_uuid@, req_data.cover@), srcs, dests);
                if dests.len() != srcs.len() {
                    final(store).fs == old(store).fs
                } else {
                    final(store).fs@ == apply_moves(old(store).fs@, pairs)
                        && final(store).fs.dirs_view() == apply_moves_dirs(
                        old(store).fs.dirs_view(), pairs)
                }
            },
    {
        let ghost pre = *old(store);
        let ghost reqg = req_data;
        let ghost au = album_uuid@;
        let ghost iu = image_uuid@;
        let cover_src = req_data.cover.clone();
        let image_src_files_paths: Vec<String> = match &req_data.images {
            Some(v) => clone_string_vec(v),
            None => Vec::new(),
        };
        proof {
            assert(str_views(image_src_files_paths@) =~= req_images_views(reqg.images));
        }
        let new_album = match NewAlbum::from_request(
            &store.fs,
            req_data,
            album_uuid,
            image_uuid,
            &image_uuids,
        ) {
            Ok(n) => n,
            Err(e) => {
                return Err(e);
            },
        };
        let cover_des_file_path = path_join(store.project_dir.as_str(), new_album.url.as_str());
        let row = match Repository::create_album(store, new_album) {
            Ok(a) => a,
            Err(_) => {
                return Err(ServiceError::Persistence);
            },
        };
        let response = AlbumResponse::from_album(row.clone_row());
        if response.images.len() != image_src_files_paths.len() {
            return Err(ServiceError::FileExchange);
        }
        let ghost srcs = req_images_views(reqg.images);
        let ghost dests = create_album_dests(au, str_views(image_uuids@), srcs);
        let ghost pairs = create_album_pairs(pre.project_dir@, reqg.cover@,
            create_cover_url(au, iu, reqg.cover@), srcs, dests);
        let mut moves: Vec<FileMove> = Vec::new();
        moves.push(FileMove { src: cover_src, dest: cover_des_file_path });
        proof {
            assert(moves_views(moves@) =~= pairs.take(1int));
        }
        let mut i: usize = 0;
        while i < image_src_files_paths.len()
            invariant
                i <= image_src_files_paths@.len(),
                store.project_dir@ == pre.project_dir@,
                str_views(image_src_files_paths@) == srcs,
                str_views(response.images@) == dests,
                response.images@.len() == image_src_files_paths@.len(),
                pairs == create_album_pairs(pre.project_dir@, reqg.cover@,
                    create_cover_url(au, iu, reqg.cover@), srcs, dests),
                moves_views(moves@) == pairs.take(1 + i),
            decreases image_src_files_paths@.len() - i,
        {
            let d = path_join(store.project_dir.as_str(), response.images[i].as_str());
            proof {
                assert(str_views(response.images@)[i as int] == response.images@[i as int]@);
                assert(str_views(image_src_files_paths@)[i as int]
                    == image_src_files_paths@[i as int]@);
            }
            let ghost pre_moves = moves@;
            moves.push(FileMove { src: image_src_files_paths[i].clone(), dest: d });
            proof {
                assert(moves_views(moves@) =~= moves_views(pre_moves).push(
                    (srcs[i as int], pre.project_dir@ + seq!['/'] + dests[i as int]))) by {
                    assert(forall|k: int| 0 <= k < pre_moves.len()
                        ==> #[trigger] moves@[k] == pre_moves[k]);
                }
                assert(pairs[1 + i] == (srcs[i as int],
                    pre.project_dir@ + seq!['/'] + dests[i as int]));
                assert(moves_views(moves@) =~= pairs.take(1 + (i + 1)));
            }
            i += 1;
        }
        proof {
            assert(pairs.take(1 + image_src_files_paths@.len() as int) =~= pairs);
        }
        let lost = commit_moves(&mut store.fs, &moves);
        if lost {
            Err(ServiceError::FileExchange)
        } else {
            Ok(response)
        }
    }

    /// Look an album up by its UUID.
    pub fn get_album_by_uuid(store: &MediaStore, album_uuid: &str) -> (r: Result<
        Album,
        ServiceError,
    >)
        ensures
            r is Ok <==> album_index_of(store.albums@, album_uuid@) != -1,
            r matches Ok(a) ==> a == store.albums@[album_index_of(store.albums@, album_uuid@)],
            r matches Err(e) ==> e == ServiceError::NotFound,
    {
        match store.get_album_by_uuid(album_uuid) {
            Ok(a) => Ok(a.clone_row()),
            Err(_) => Err(ServiceError::NotFound),
        }
    }
}


/// How the updated row relates to the old row, the request, the fresh
/// asset key and the staged bytes.
pub open spec fn updated_album_row(
    fsm: Map<Seq<char>, Seq<u8>>,
    old_row: Album,
    req: UpdateAlbumRequest,
    key: Seq<char>,
    now: Timestamp,
    a: Album,
) -> bool {
    &&& a.id == old_row.id
    &&& a.uuid == old_row.uuid
    &&& a.title == req.title
    &&& a.description == req.description
    &&& a.completed == (match req.completed {
        Some(b) => b,
        None => old_row.completed,
    })
    &&& a.images == old_row.images
    &&& a.tags == req.tags
    &&& a.enable == (match req.enable {
        Some(b) => b,
        None => old_row.enable,
    })
    &&& a.min_age == (match req.min_age {
        Some(v) => v,
        None => old_row.min_age,
    })
    &&& a.content_type == old_row.content_type
    &&& match req.cover {
        Some(src) => {
            &&& a.url@ == create_cover_url(old_row.uuid@, key, src@)
            &&& a.width == image_width_of(fsm, src@) as i32
            &&& a.height == image_height_of(fsm, src@) as i32
            &&& a.bytes == fsm[src@].len() as u64 as i32
        },
        None => {
            &&& a.url == old_row.url
            &&& a.width == old_row.width
            &&& a.height == old_row.height
            &&& a.bytes == old_row.bytes
        },
    }
    &&& a.released_at == req.released_at
    &&& a.broken_at == req.broken_at
    &&& a.created_at == old_row.created_at
    &&& a.updated_at == Some(now)
}

/// Which way an album update ends.
pub open spec fn update_album_outcome(
    pre: MediaStore,
    uuid: Seq<char>,
    req: UpdateAlbumRequest,
) -> Result<(), ServiceError> {
    if album_index_of(pre.albums@, uuid) == -1 {
        Err(ServiceError::NotFound)
    } else if req.cover matches Some(c) && !pre.fs@.dom().contains(c@) {
        Err(ServiceError::Validation)
    } else {
        Ok(())
    }
}

/// The destination urls an add-images request commits to.
pub open spec fn add_images_urls(
    album_uuid: Seq<char>,
    image_uuids: Seq<Seq<char>>,
    srcs: Seq<Seq<char>>,
) -> Seq<Seq<char>> {
    image_urls_spec(album_uuid, image_uuids, srcs).filter(|s: Seq<char>| !crate::paths::is_blank(s))
}

/// The image column after an add: the old column, a comma, and the new
/// urls — or the old column alone when nothing was added.
pub open spec fn added_images_column(old_col: Seq<char>, urls: Seq<Seq<char>>) -> Seq<char> {
    if urls.len() == 0 {
        old_col
    } else {
        old_col + seq![','] + join_with(urls, ',')
    }
}

/// The image pieces kept by a removal: the old pieces minus the removed
/// ones, blanks dropped.
pub open spec fn kept_images(col: Seq<char>, removals: Seq<Seq<char>>) -> Seq<Seq<char>> {
    split_on(col, ',').filter(|s: Seq<char>| !removals.contains(s)).filter(
        |s: Seq<char>| !crate::paths::is_blank(s))
}

impl Service {
    /// Update an album: look the row up, recompute the media columns from
    /// a newly staged cover if one came, write the row, and only then
    /// delete the old file and move the new one in.  With no new cover the
    /// stored path and media columns are untouched and no file moves.
    pub fn update_album(
        store: &mut MediaStore,
        album_uuid: String,
        update_album: UpdateAlbumRequest,
        new_key: String,
        now: Timestamp,
    ) -> (r: Result<AlbumResponse, ServiceError>)
        requires
            old(store).inv(),
        ensures
            final(store).inv(),
            final(store).project_dir == old(store).project_dir,
            final(store).episodes@ == old(store).episodes@,
            final(store).contents@ == old(store).contents@,
            final(store).categories@ == old(store).categories@,
            r is Ok <==> update_album_outcome(*old(store), album_uuid@, update_album) is Ok,
            r matches Err(e) ==> update_album_outcome(*old(store), album_uuid@, update_album)
                == Err::<(), ServiceError>(e),
            r is Err ==> *final(store) == *old(store),
            r matches Ok(resp) ==> {
                let idx = album_index_of(old(store).albums@, album_uuid@);
                let old_row = old(store).albums@[idx];
                let row = final(store).albums@[idx];
                &&& updated_album_row(old(store).fs@, old_row, update_album, new_key@, now, row)
                &&& final(store).albums@ == old(store).albums@.update(idx, row)
                &&& album_response_matches(row, resp)
                &&& if update_album.cover is Some && row.url@ != old_row.url@ {
                    final(store).fs@ == apply_move(
                        old(store).fs@.remove(old(store).project_dir@ + seq!['/'] + old_row.url@),
                        update_album.cover->0@,
                        old(store).project_dir@ + seq!['/'] + row.url@,
                    )
                } else {
                    final(store).fs == old(store).fs
                }
            },
    {
        let ghost reqg = update_album;
        let album = match store.get_album_by_uuid(album_uuid.as_str()) {
            Ok(a) => a.clone_row(),
            Err(_) => {
                return Err(ServiceError::NotFound);
            },
        };
        proof {
            lemma_album_index_of(store.albums@, album_uuid@);
        }
        let old_url = album.url.clone();
        let cover_src = clone_opt_string(&update_album.cover);
        let mut new_album = Album {
            id: album.id,
            uuid: album.uuid.clone(),
            title: update_album.title,
            description: update_album.description,
            completed: match update_album.completed {
                Some(b) => b,
                None => album.completed,
            },
            images: album.images.clone(),
            tags: update_album.tags,
            enable: match update_album.enable {
                Some(b) => b,
                None => album.enable,
            },
            min_age: match update_album.min_age {
                Some(v) => v,
                None => album.min_age,
            },
            url: album.url.clone(),
            content_type: album.content_type.clone(),
            width: album.width,
            height: album.height,
            bytes: album.bytes,
            released_at: update_album.released_at,
            broken_at: update_album.broken_at,
            created_at: album.created_at,
            updated_at: album.updated_at,
        };
        match &cover_src {
            Some(src_path) => {
                let m = match get_file_metadata(&store.fs, src_path.as_str()) {
                    Some(m) => m,
                    None => {
                        return Err(ServiceError::Validation);
                    },
                };
                let data_dir = get_data_directory();
                let ext = extension_of(m.original_name.as_str());
                let new_url = with_extension(
                    path_join(
                        path_join(data_dir.as_str(), album.uuid.as_str()).as_str(),
                        new_key.as_str(),
                    ).as_str(),
                    ext.as_str(),
                );
                proof {
                    assert(new_url@ =~= create_cover_url(album.uuid@, new_key@,
                        src_path@));
                }
                new_album.url = new_url;
                let dims = match m.image_data {
                    Some(d) => d,
                    None => ImageMetadata::default(),
                };
                new_album.width = #[verifier::truncate] (dims.width as i32);
                new_album.height = #[verifier::truncate] (dims.height as i32);
                new_album.bytes = #[verifier::truncate] (m.size as i32);
            },
            None => {},
        }
        new_album.updated_at = Some(now);
        match Repository::update_album(store, new_album.clone_row()) {
            Ok(size) => {
                if size > 0 {
                    if !crate::text::str_eq(new_album.url.as_str(), old_url.as_str()) {
                        let old_file_path = path_join(store.project_dir.as_str(),
                            old_url.as_str());
                        store.fs.delete_file_if_exists(old_file_path.as_str());
                        match &cover_src {
                            Some(src_file_path) => {
                                let des_file_path = path_join(store.project_dir.as_str(),
                                    new_album.url.as_str());
                                store.fs.move_file_and_replace(src_file_path.as_str(),
                                    des_file_path.as_str());
                                proof {
                                    assert(store.fs@ =~= apply_move(
                                        old(store).fs@.remove(old(store).project_dir@
                                            + seq!['/'] + old_url@),
                                        src_file_path@,
                                        old(store).project_dir@ + seq!['/'] + new_album.url@,
                                    ));
                                }
                            },
                            None => {},
                        }
                    }
                    Ok(AlbumResponse::from_album(new_album))
                } else {
                    Err(ServiceError::NotFound)
                }
            },
            Err(_) => Err(ServiceError::Persistence),
        }
    }

    /// Add description images to an album: compute the destination urls
    /// from fresh identifiers, append them to the image column, write the
    /// row, and only then move the staged files; a count mismatch or a
    /// missing staged file is a file-exchange error with the row kept.
    pub fn add_album_images(
        store: &mut MediaStore,
        album_uuid: String,
        req: AddAlbumImagesRequest,
        image_uuids: Vec<String>,
        now: Timestamp,
    ) -> (r: Result<AlbumResponse, ServiceError>)
        requires
            old(store).inv(),
            image_uuids@.len() == req.images@.len(),
        ensures
            final(store).inv(),
            final(store).project_dir == old(store).project_dir,
            final(store).episodes@ == old(store).episodes@,
            final(store).contents@ == old(store).contents@,
            final(store).categories@ == old(store).categories@,
            r matches Err(e) && e == ServiceError::NotFound
                <==> album_index_of(old(store).albums@, album_uuid@) == -1,
            (r matches Err(e) && e == ServiceError::NotFound) ==> *final(store) == *old(store),
            ({
                let idx = album_index_of(old(store).albums@, album_uuid@);
                let srcs = str_views(req.images@);
                let urls = add_images_urls(album_uuid@, str_views(image_uuids@), srcs);
                let pairs = Seq::new(srcs.len(), |i: int| (srcs[i],
                    old(store).project_dir@ + seq!['/'] + urls[i]));
                idx != -1 ==> {
                    let old_row = old(store).albums@[idx];
                    let row = final(store).albums@[idx];
                    &&& final(store).albums@ == old(store).albums@.update(idx, row)
                    &&& row.images@ == added_images_column(old_row.images@, urls)
                    &&& row.updated_at == Some(now)
                    &&& row.id == old_row.id && row.uuid == old_row.uuid
                        && row.title == old_row.title && row.url == old_row.url
                    &&& (r is Ok <==> urls.len() == srcs.len()
                        && moves_all_present(old(store).fs@, pairs))
                    &&& (urls.len() == srcs.len() ==> final(store).fs@ == apply_moves(
                        old(store).fs@, pairs))
                    &&& (urls.len() != srcs.len() ==> final(store).fs == old(store).fs)
                    &&& (r matches Err(e) ==> e == ServiceError::FileExchange)
                    &&& (r matches Ok(resp) ==> album_response_matches(row, resp))
                }
            }),
    {
        let ghost au = album_uuid@;
        let ghost srcs = str_views(req.images@);
        let ghost urls_all = image_urls_spec(au, str_views(image_uuids@), srcs);
        let data_dir = get_data_directory();
        let album_dir = path_join(data_dir.as_str(), album_uuid.as_str());
        let mut new_images: Vec<String> = Vec::new();
        let mut i: usize = 0;
        while i < req.images.len()
            invariant
                i <= req.images@.len(),
                image_uuids@.len() == req.images@.len(),
                srcs == str_views(req.images@),
                urls_all == image_urls_spec(au, str_views(image_uuids@), srcs),
                album_dir@ == "data"@ + seq!['/'] + au,
                str_views(new_images@) =~= urls_all.take(i as int),
            decreases req.images@.len() - i,
        {
            let e = extension_of(req.images[i].as_str());
            let u = with_extension(
                path_join(album_dir.as_str(), image_uuids[i].as_str()).as_str(),
                e.as_str(),
            );
            proof {
                assert(str_views(req.images@)[i as int] == req.images@[i as int]@);
                assert(str_views(image_uuids@)[i as int] == image_uuids@[i as int]@);
                assert(u@ == urls_all[i as int]);
            }
            let ghost pre_imgs = new_images@;
            new_images.push(u);
            proof {
                assert(str_views(new_images@) =~= str_views(pre_imgs).push(urls_all[i as int]))
                    by {
                    assert(forall|k: int| 0 <= k < pre_imgs.len()
                        ==> #[trigger] new_images@[k] == pre_imgs[k]);
                }
                assert(str_views(new_images@) =~= urls_all.take(i + 1));
            }
            i += 1;
        }
        proof {
            assert(urls_all.take(urls_all.len() as int) =~= urls_all);
        }
        let ghost pre_retain = new_images@;
        crate::paths::retain_non_blank(&mut new_images);
        proof {
            crate::text::lemma_str_views_filter(pre_retain,
                |s: String| !crate::paths::is_blank(s@),
                |t: Seq<char>| !crate::paths::is_blank(t));
            assert(str_views(new_images@)
                =~= add_images_urls(au, str_views(image_uuids@), srcs));
        }
        let ghost urls = add_images_urls(au, str_views(image_uuids@), srcs);
        let album = match store.get_album_by_uuid(album_uuid.as_str()) {
            Ok(a) => a.clone_row(),
            Err(_) => {
                return Err(ServiceError::NotFound);
            },
        };
        proof {
            lemma_album_index_of(store.albums@, album_uuid@);
        }
        let images_col = if new_images.len() == 0 {
            album.images.clone()
        } else {
            proof {
                reveal_strlit(",");
                assert(","@ =~= seq![',']);
            }
            let joined = join_with_sep(&new_images, ",");
            let mut s = album.images.clone();
            s.append(",");
            s.append(joined.as_str());
            s
        };
        let mut new_album = album.clone_row();
        new_album.images = images_col;
        new_album.updated_at = Some(now);
        match Repository::update_album(store, new_album.clone_row()) {
            Ok(size) => {
                if size > 0 {
                    if new_images.len() == req.images.len() {
                        let ghost pairs = Seq::new(srcs.len(), |k: int| (srcs[k],
                            old(store).project_dir@ + seq!['/'] + urls[k]));
                        let mut moves: Vec<FileMove> = Vec::new();
                        let mut k: usize = 0;
                        proof {
                            assert(moves_views(moves@) =~= pairs.take(0int));
                        }
                        while k < req.images.len()
                            invariant
                                k <= req.images@.len(),
                                new_images@.len() == req.images@.len(),
                                store.project_dir@ == old(store).project_dir@,
                                srcs == str_views(req.images@),
                                str_views(new_images@) == urls,
                                pairs == Seq::new(srcs.len(), |j: int| (srcs[j],
                                    old(store).project_dir@ + seq!['/'] + urls[j])),
                                moves_views(moves@) == pairs.take(k as int),
                            decreases req.images@.len() - k,
                        {
                            let d = path_join(store.project_dir.as_str(),
                                new_images[k].as_str());
                            proof {
                                assert(str_views(new_images@)[k as int]
                                    == new_images@[k as int]@);
                                assert(str_views(req.images@)[k as int]
                                    == req.images@[k as int]@);
                            }
                            let ghost pre_moves = moves@;
                            moves.push(FileMove { src: req.images[k].clone(), dest: d });
                            proof {
                                assert(moves_views(moves@) =~= moves_views(pre_moves).push(
                                    (srcs[k as int], old(store).project_dir@ + seq!['/']
                                        + urls[k as int]))) by {
                                    assert(forall|j: int| 0 <= j < pre_moves.len()
                                        ==> #[trigger] moves@[j] == pre_moves[j]);
                                }
                                assert(moves_views(moves@) =~= pairs.take(k + 1));
                            }
                            k += 1;
                        }
                        proof {
                            assert(pairs.take(pairs.len() as int) =~= pairs);
                        }
                        let lost = commit_moves(&mut store.fs, &moves);
                        if lost {
                            Err(ServiceError::FileExchange)
                        } else {
                            Ok(AlbumResponse::from_album(new_album))
                        }
                    } else {
                        Err(ServiceError::FileExchange)
                    }
                } else {
                    Err(ServiceError::NotFound)
                }
            },
            Err(_) => Err(ServiceError::Persistence),
        }
    }

    /// Remove description images from an album: rewrite the image column
    /// without them, write the row, and delete the named files; when
    /// nothing changed, say so.
    pub fn remove_album_images(
        store: &mut MediaStore,
        album_uuid: String,
        req: RemoveAlbumImagesRequest,
        now: Timestamp,
    ) -> (r: Result<AlbumResponse, ServiceError>)
        requires
            old(store).inv(),
        ensures
            final(store).inv(),
            final(store).project_dir == old(store).project_dir,
            final(store).episodes@ == old(store).episodes@,
            final(store).contents@ == old(store).contents@,
            final(store).categories@ == old(store).categories@,
            r matches Err(e) && e == ServiceError::NotFound
                <==> album_index_of(old(store).albums@, album_uuid@) == -1,
            (r matches Err(e) && e == ServiceError::NotFound) ==> *final(store) == *old(store),
            ({
                let idx = album_index_of(old(store).albums@, album_uuid@);
                let removals = str_views(req.images@);
                idx != -1 ==> {
                    let old_row = old(store).albums@[idx];
                    let kept = kept_images(old_row.images@, removals);
                    let row = final(store).albums@[idx];
                    &&& final(store).albums@ == old(store).albums@.update(idx, row)
                    &&& row.images@ == join_with(kept, ',')
                    &&& row.updated_at == Some(now)
                    &&& row.id == old_row.id && row.uuid == old_row.uuid
                        && row.url == old_row.url
                    &&& final(store).fs@ == remove_keys_seq(old(store).fs@, removals)
                    &&& (r is Ok <==> kept.len() != split_on(old_row.images@, ',').len())
                    &&& (r matches Err(e) ==> e == ServiceError::Validation)
                    &&& (r matches Ok(resp) ==> album_response_matches(row, resp))
                }
            }),
    {
        let album = match store.get_album_by_uuid(album_uuid.as_str()) {
            Ok(a) => a.clone_row(),
            Err(_) => {
                return Err(ServiceError::NotFound);
            },
        };
        proof {
            lemma_album_index_of(store.albums@, album_uuid@);
        }
        let old_album_images = split_string(album.images.as_str(), ',');
        let mut album_images = clone_string_vec(&old_album_images);
        proof {
            assert(album_images@ == old_album_images@);
        }
        let ghost pre_remove = album_images@;
        remove_values_from_vec_string(&req.images, &mut album_images);
        proof {
            assert forall|s: String| #[trigger] seq_has_string(req.images@, s@)
                == str_views(req.images@).contains(s@) by {
                if seq_has_string(req.images@, s@) {
                    let w = choose|w: int| 0 <= w < req.images@.len()
                        && req.images@[w]@ == s@;
                    assert(str_views(req.images@)[w] == s@);
                }
                if str_views(req.images@).contains(s@) {
                    let w = choose|w: int| 0 <= w < str_views(req.images@).len()
                        && str_views(req.images@)[w] == s@;
                    assert(req.images@[w]@ == s@);
                }
            }
            crate::text::lemma_str_views_filter(pre_remove,
                |s: String| !seq_has_string(req.images@, s@),
                |t: Seq<char>| !str_views(req.images@).contains(t));
        }
        let ghost pre_blank = album_images@;
        crate::paths::retain_non_blank(&mut album_images);
        proof {
            crate::text::lemma_str_views_filter(pre_blank,
                |s: String| !crate::paths::is_blank(s@),
                |t: Seq<char>| !crate::paths::is_blank(t));
            assert(str_views(album_images@)
                =~= kept_images(album.images@, str_views(req.images@)));
        }
        proof {
            reveal_strlit(",");
            assert(","@ =~= seq![',']);
        }
        let new_images = join_with_sep(&album_images, ",");
        proof {
            if album_images@.len() == 0 {
                assert(new_images@ =~= join_with(str_views(album_images@), ','));
            }
        }
        let mut new_album = album.clone_row();
        new_album.images = new_images;
        new_album.updated_at = Some(now);
        match Repository::update_album(store, new_album.clone_row()) {
            Ok(size) => {
                if size > 0 {
                    let ghost removals = str_views(req.images@);
                    let ghost mid = *store;
                    let mut k: usize = 0;
                    proof {
                        assert(store.fs@ =~= remove_keys_seq(old(store).fs@,
                            removals.take(0int)));
                    }
                    while k < req.images.len()
                        invariant
                            k <= req.images@.len(),
                            store.inv(),
                            store.project_dir == mid.project_dir,
                            store.albums == mid.albums,
                            store.episodes == mid.episodes,
                            store.contents == mid.contents,
                            store.categories == mid.categories,
                            mid.inv(),
                            removals == str_views(req.images@),
                            store.fs@ == remove_keys_seq(old(store).fs@,
                                removals.take(k as int)),
                        decreases req.images@.len() - k,
                    {
                        store.fs.delete_file_if_exists(req.images[k].as_str());
                        proof {
                            assert(removals.take(k + 1).drop_last() =~= removals.take(k as int));
                            assert(removals.take(k + 1).last() == req.images@[k as int]@);
                        }
                        k += 1;
                    }
                    proof {
                        assert(removals.take(removals.len() as int) =~= removals);
                    }
                    if old_album_images.len() == album_images.len() {
                        Err(ServiceError::Validation)
                    } else {
                        Ok(AlbumResponse::from_album(new_album))
                    }
                } else {
                    Err(ServiceError::NotFound)
                }
            },
            Err(_) => Err(ServiceError::Persistence),
        }
    }

    /// Delete an album: its asset directory first, best-effort and
    /// independent of the row outcome, then the row.  Deleting a missing
    /// album reports zero rows, never an error, so a second delete is
    /// harmless.
    pub fn delete_album(store: &mut MediaStore, album_uuid: String) -> (r: Result<
        usize,
        ServiceError,
    >)
        requires
            old(store).inv(),
        ensures
            final(store).inv(),
            final(store).project_dir == old(store).project_dir,
            final(store).episodes@ == old(store).episodes@,
            final(store).contents@ == old(store).contents@,
            final(store).categories@ == old(store).categories@,
            r is Ok,
            final(store).fs@ == old(store).fs@.filter_keys(
                |p: Seq<char>| !crate::paths::is_under(p, "data"@ + seq!['/'] + album_uuid@)),
            r matches Ok(n) ==> {
                let idx = album_index_of(old(store).albums@, album_uuid@);
                if idx == -1 {
                    n == 0 && final(store).albums@ == old(store).albums@
                } else {
                    n == 1 && final(store).albums@ == old(store).albums@.remove(idx)
                }
            },
            // afterwards no album carries the UUID, so a second delete
            // reports zero rows
            album_index_of(final(store).albums@, album_uuid@) == -1,
    {
        let data_dir = get_data_directory();
        let filepath = path_join(data_dir.as_str(), album_uuid.as_str());
        store.fs.delete_directory_if_exists(filepath.as_str());
        let r = Repository::delete_album(store, album_uuid.as_str());
        proof {
            let pre = old(store).albums@;
            let idx = album_index_of(pre, album_uuid@);
            lemma_album_index_of(pre, album_uuid@);
            lemma_album_index_of(store.albums@, album_uuid@);
            if idx != -1 && album_index_of(store.albums@, album_uuid@) != -1 {
                let w = album_index_of(store.albums@, album_uuid@);
                assert(store.albums@ == pre.remove(idx));
                assert(forall|a: int| 0 <= a < pre.len() - 1
                    ==> pre.remove(idx)[a] == (if a < idx {
                        pre[a]
                    } else {
                        pre[a + 1]
                    }));
                if w < idx {
                    assert(pre[w].uuid@ == album_uuid@);
                    assert(pre[idx].uuid@ == album_uuid@);
                } else {
                    assert(pre[w + 1].uuid@ == album_uuid@);
                    assert(pre[idx].uuid@ == album_uuid@);
                }
                assert(false);
            }
        }
        match r {
            Ok(n) => Ok(n),
            Err(_) => Err(ServiceError::Persistence),
        }
    }
}


} // verus!
