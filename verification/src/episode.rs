//! Episodes: rows under an album, with one optional primary file.

use vstd::prelude::*;
use crate::common::{RepoError, ServiceError, IngestError};
use crate::fields::FieldMap;
use crate::value::{ValueModel, i32_opt_of, str_opt_of};
use crate::timefmt::{Timestamp, render_matches, opt_naive_datetime_to_utc_opt_string};
use crate::album::{opt_str_view, clone_opt_string, image_width_of, image_height_of};
use crate::paths::{last_segment_of, path_join, with_extension, extension_of, get_data_directory, dir_prefix_of, is_blank, str_is_blank, is_under};
use crate::metadata::{mime_of, get_file_metadata, ImageMetadata};
use crate::fsmodel::FsModel;
use crate::store::{MediaStore, apply_move, album_id_index_of, episode_index_of, lemma_episode_index_of, lemma_episode_first};

verus! {

/// An episode row.
#[derive(Debug, Clone)]
pub struct Episode {
    pub id: Option<i32>,
    pub album_id: i32,
    pub uuid: String,
    pub title: String,
    /// Relative path of the committed primary file, when one exists.
    pub url: Option<String>,
    /// An external URL standing in for a file, when supplied.
    pub file_url: Option<String>,
    pub content_type: Option<String>,
    pub width: i32,
    pub height: i32,
    pub bytes: i32,
    pub broken_at: Option<Timestamp>,
    pub created_at: Option<Timestamp>,
    pub updated_at: Option<Timestamp>,
}

impl Episode {
    /// A field-for-field copy of the row.
    pub fn clone_row(&self) -> (r: Episode)
        ensures
            r == *self,
    {
        Episode {
            id: self.id,
            album_id: self.album_id,
            uuid: self.uuid.clone(),
            title: self.title.clone(),
            url: clone_opt_string(&self.url),
            file_url: clone_opt_string(&self.file_url),
            content_type: clone_opt_string(&self.content_type),
            width: self.width,
            height: self.height,
            bytes: self.bytes,
            broken_at: self.broken_at,
            created_at: self.created_at,
            updated_at: self.updated_at,
        }
    }
}

/// The outward projection of an episode row.
#[derive(Debug, Clone, PartialEq, Eq)]
pub struct EpisodeResponse {
    pub id: Option<i32>,
    pub album_id: i32,
    pub title: String,
    pub uuid: String,
    pub url: Option<String>,
    pub broken_at: Option<String>,
    pub created_at: Option<String>,
    pub updated_at: Option<String>,
}

/// How a response relates to the row it projects.
pub open spec fn episode_response_matches(e: Episode, r: EpisodeResponse) -> bool {
    &&& r.id == e.id
    &&& r.album_id == e.album_id
    &&& r.title == e.title
    &&& r.uuid == e.uuid
    &&& r.url == e.url
    &&& render_matches(e.broken_at, opt_str_view(r.broken_at))
    &&& render_matches(e.created_at, opt_str_view(r.created_at))
    &&& render_matches(e.updated_at, opt_str_view(r.updated_at))
}

impl EpisodeResponse {
    /// Project one row.
    pub fn from_episode(ep: Episode) -> (r: Self)
        ensures
            episode_response_matches(ep, r),
    {
        EpisodeResponse {
            id: ep.id,
            album_id: ep.album_id,
            title: ep.title,
            uuid: ep.uuid,
            url: ep.url,
            broken_at: opt_naive_datetime_to_utc_opt_string(ep.broken_at),
            created_at: opt_naive_datetime_to_utc_opt_string(ep.created_at),
            updated_at: opt_naive_datetime_to_utc_opt_string(ep.updated_at),
        }
    }

    /// Project many rows, in order.
    pub fn from_episodes(eps: Vec<Episode>) -> (r: Vec<Self>)
        ensures
            r@.len() == eps@.len(),
            forall|i: int| 0 <= i < r@.len()
                ==> episode_response_matches(eps@[i], #[trigger] r@[i]),
    {
        let mut r: Vec<EpisodeResponse> = Vec::new();
        let mut i: usize = 0;
        while i < eps.len()
            invariant
                i <= eps@.len(),
                r@.len() == i,
                forall|j: int| 0 <= j < i
                    ==> episode_response_matches(eps@[j], #[trigger] r@[j]),
            decreases eps@.len() - i,
        {
            let row = eps[i].clone_row();
            r.push(EpisodeResponse::from_episode(row));
            i += 1;
        }
        r
    }
}

/// The request to create an episode.
#[derive(Debug, Clone)]
pub struct CreateEpisodeRequest {
    pub album_id: i32,
    pub title: String,
    /// Staged path of the episode file, when one was uploaded.
    pub file: Option<String>,
}

/// When the create-episode binding succeeds: a string `title` and an
/// in-range integer `album_id`.
pub open spec fn create_episode_binds(m: Map<Seq<char>, ValueModel>) -> bool {
    &&& m.dom().contains("title"@) && m["title"@] is Str
    &&& m.dom().contains("album_id"@)
    &&& m["album_id"@] matches ValueModel::Int(v) && i32::MIN <= v <= i32::MAX
}

impl CreateEpisodeRequest {
    /// Whether the merged field map carries the required fields.
    pub fn check_required_data(payload_data: &FieldMap) -> (r: bool)
        requires
            payload_data.inv(),
        ensures
            r == create_episode_binds(payload_data@),
    {
        let title_ok = match payload_data.get_string("title") {
            Some(_) => true,
            None => false,
        };
        let id_ok = match payload_data.get_i32("album_id") {
            Some(_) => true,
            None => false,
        };
        title_ok && id_ok
    }

    /// Bind the merged field map.
    pub fn from_payload_data(payload_data: &FieldMap) -> (r: Result<Self, IngestError>)
        requires
            payload_data.inv(),
        ensures
            r is Ok <==> create_episode_binds(payload_data@),
            r matches Ok(req) ==> {
                &&& payload_data@["title"@] == ValueModel::Str(req.title@)
                &&& i32_opt_of(payload_data@["album_id"@]) == Some(req.album_id)
                &&& opt_str_view(req.file) == {
                    let ps = if payload_data@.dom().contains("file"@) {
                        crate::fields::paths_of_value(payload_data@["file"@])
                    } else {
                        Seq::<Seq<char>>::empty()
                    };
                    if ps.len() == 0 {
                        None
                    } else {
                        Some(ps[0])
                    }
                }
            },
            r matches Err(e) ==> e == IngestError::Bind,
    {
        let title = match payload_data.get_string("title") {
            Some(t) => t,
            None => {
                return Err(IngestError::Bind);
            },
        };
        let album_id = match payload_data.get_i32("album_id") {
            Some(v) => v,
            None => {
                return Err(IngestError::Bind);
            },
        };
        let file_paths = if payload_data.contains_key("file") {
            payload_data.get_paths("file")
        } else {
            Vec::new()
        };
        let file = if file_paths.len() == 0 {
            None
        } else {
            Some(file_paths[0].clone())
        };
        Ok(CreateEpisodeRequest { album_id, title, file })
    }
}

/// The request to update an episode.
#[derive(Debug, Clone)]
pub struct UpdateEpisodeRequest {
    pub title: Option<String>,
    /// Staged path of a replacement file, when one was uploaded.
    pub file: Option<String>,
    /// An external URL replacing the stored file, when supplied.
    pub file_url: Option<String>,
    /// Drop the stored file without replacing it.
    pub remove_old_file: bool,
}

impl UpdateEpisodeRequest {
    /// Bind the merged field map; every field is optional.
    pub fn from_payload_data(payload_data: &FieldMap) -> (r: Result<Self, IngestError>)
        requires
            payload_data.inv(),
        ensures
            r is Ok,
            r matches Ok(req) ==> {
                &&& opt_str_view(req.title) == if payload_data@.dom().contains("title"@) {
                    str_opt_of(payload_data@["title"@])
                } else {
                    None
                }
                &&& opt_str_view(req.file) == {
                    let ps = if payload_data@.dom().contains("file"@) {
                        crate::fields::paths_of_value(payload_data@["file"@])
                    } else {
                        Seq::<Seq<char>>::empty()
                    };
                    if ps.len() == 0 {
                        None
                    } else {
                        Some(ps[0])
                    }
                }
                &&& opt_str_view(req.file_url) == if payload_data@.dom().contains("file_url"@) {
                    str_opt_of(payload_data@["file_url"@])
                } else {
                    None
                }
                &&& req.remove_old_file == if payload_data@.dom().contains("remove_old_file"@) {
                    crate::value::bool_opt_of(payload_data@["remove_old_file"@]) == Some(true)
                } else {
                    false
                }
            },
    {
        let title = if payload_data.contains_key("title") {
            payload_data.get_string("title")
        } else {
            None
        };
        let file_paths = if payload_data.contains_key("file") {
            payload_data.get_paths("file")
        } else {
            Vec::new()
        };
        let file = if file_paths.len() == 0 {
            None
        } else {
            Some(file_paths[0].clone())
        };
        let file_url = if payload_data.contains_key("file_url") {
            payload_data.get_string("file_url")
        } else {
            None
        };
        let remove_old_file = if payload_data.contains_key("remove_old_file") {
            match payload_data.get_bool("remove_old_file") {
                Some(b) => b,
                None => false,
            }
        } else {
            false
        };
        Ok(UpdateEpisodeRequest { title, file, file_url, remove_old_file })
    }
}

/// A filter for listing episodes.
#[derive(Debug, Clone)]
pub struct FilterEpisodeRequest {
    pub title: String,
}

/// The stored path of an episode's primary file: under the album's and
/// the episode's UUID directories, named by a fresh key, with the staged
/// path's extension.
pub open spec fn episode_url(
    album_uuid: Seq<char>,
    episode_uuid: Seq<char>,
    key: Seq<char>,
    src: Seq<char>,
) -> Seq<char> {
    "data"@ + seq!['/'] + album_uuid + seq!['/'] + episode_uuid + seq!['/'] + key + seq!['.']
        + last_segment_of(src, '.')
}

/// How the row computed from a create request relates to the request and
/// the fresh identifiers; media columns stay empty without a file.
pub open spec fn episode_from_request(
    req: CreateEpisodeRequest,
    album_uuid: Seq<char>,
    episode_uuid: Seq<char>,
    file_key: Seq<char>,
    e: Episode,
) -> bool {
    &&& e.id is None
    &&& e.album_id == req.album_id
    &&& e.uuid@ == episode_uuid
    &&& e.title == req.title
    &&& match req.file {
        Some(f) => e.url matches Some(u) && u@ == episode_url(album_uuid, episode_uuid,
            file_key, f@),
        None => e.url is None,
    }
    &&& e.file_url is None
    &&& e.content_type is None
    &&& e.width == 0 && e.height == 0 && e.bytes == 0
    &&& e.broken_at is None && e.created_at is None && e.updated_at is None
}

impl Episode {
    /// Compute the row for a new episode from the bound request and the
    /// fresh identifiers.
    pub fn from_create_request(
        req: CreateEpisodeRequest,
        album_uuid: String,
        episode_uuid: String,
        file_key: String,
    ) -> (r: Episode)
        ensures
            episode_from_request(req, album_uuid@, episode_uuid@, file_key@, r),
    {
        let url = match &req.file {
            Some(f) => {
                let data_dir = get_data_directory();
                let ext = extension_of(f.as_str());
                let base = path_join(
                    path_join(
                        path_join(data_dir.as_str(), album_uuid.as_str()).as_str(),
                        episode_uuid.as_str(),
                    ).as_str(),
                    file_key.as_str(),
                );
                let u = with_extension(base.as_str(), ext.as_str());
                proof {
                    assert(u@ =~= episode_url(album_uuid@, episode_uuid@, file_key@, f@));
                }
                Some(u)
            },
            None => None,
        };
        Episode {
            id: None,
            album_id: req.album_id,
            uuid: episode_uuid,
            title: req.title,
            url,
            file_url: None,
            content_type: None,
            width: 0,
            height: 0,
            bytes: 0,
            broken_at: None,
            created_at: None,
            updated_at: None,
        }
    }
}

/// The update's fields with the key column kept: row-store changesets
/// never touch the primary key.
pub open spec fn episode_with_id(e: Episode, id: Option<i32>) -> Episode {
    Episode {
        id,
        album_id: e.album_id,
        uuid: e.uuid,
        title: e.title,
        url: e.url,
        file_url: e.file_url,
        content_type: e.content_type,
        width: e.width,
        height: e.height,
        bytes: e.bytes,
        broken_at: e.broken_at,
        created_at: e.created_at,
        updated_at: e.updated_at,
    }
}

/// The row operations on the episode table.
pub struct Repository;

impl Repository {
    /// Insert an episode row; the store assigns its id, and the UUID must
    /// be fresh.
    pub fn create_episode(store: &mut MediaStore, new_episode: Episode) -> (r: Result<
        Episode,
        RepoError,
    >)
        requires
            old(store).inv(),
        ensures
            final(store).inv(),
            final(store).fs == old(store).fs,
            final(store).project_dir == old(store).project_dir,
            final(store).albums@ == old(store).albums@,
            final(store).contents@ == old(store).contents@,
            final(store).categories@ == old(store).categories@,
            r is Ok <==> episode_index_of(old(store).episodes@, new_episode.uuid@) == -1
                && old(store).next_episode_id < i32::MAX,
            r matches Ok(e) ==> e.id == Some(old(store).next_episode_id)
                && e.album_id == new_episode.album_id
                && e.uuid == new_episode.uuid
                && e.title == new_episode.title
                && e.url == new_episode.url
                && e.file_url == new_episode.file_url
                && e.content_type == new_episode.content_type
                && e.width == new_episode.width
                && e.height == new_episode.height
                && e.bytes == new_episode.bytes
                && e.broken_at == new_episode.broken_at
                && e.created_at == new_episode.created_at
                && e.updated_at == new_episode.updated_at
                && final(store).episodes@ == old(store).episodes@.push(e)
                && final(store).next_episode_id == old(store).next_episode_id + 1,
            r is Err ==> *final(store) == *old(store)
                && (r matches Err(e) && e == RepoError::Conflict),
    {
        proof {
            lemma_episode_index_of(store.episodes@, new_episode.uuid@);
        }
        let mut i: usize = 0;
        while i < store.episodes.len()
            invariant
                old(store).inv(),
                i <= store.episodes@.len(),
                store == old(store),
                forall|j: int| 0 <= j < i ==> store.episodes@[j].uuid@ != new_episode.uuid@,
            decreases store.episodes@.len() - i,
        {
            if crate::text::str_eq(store.episodes[i].uuid.as_str(), new_episode.uuid.as_str()) {
                proof {
                    lemma_episode_first(store.episodes@, i as int, new_episode.uuid@);
                }
                return Err(RepoError::Conflict);
            }
            i += 1;
        }
        if store.next_episode_id == i32::MAX {
            return Err(RepoError::Conflict);
        }
        let id = store.next_episode_id;
        store.next_episode_id = id + 1;
        let mut row = new_episode;
        row.id = Some(id);
        let out = row.clone_row();
        store.episodes.push(row);
        proof {
            assert(forall|j: int| 0 <= j < old(store).episodes@.len()
                ==> #[trigger] store.episodes@[j] == old(store).episodes@[j]);
        }
        Ok(out)
    }

    /// Find an episode row by UUID.
    pub fn get_episode_by_episode_uuid(store: &MediaStore, episode_uuid: &str) -> (r: Result<
        Episode,
        RepoError,
    >)
        ensures
            r is Ok <==> episode_index_of(store.episodes@, episode_uuid@) != -1,
            r matches Ok(e)
                ==> e == store.episodes@[episode_index_of(store.episodes@, episode_uuid@)],
            r matches Err(e) ==> e == RepoError::NotFound,
    {
        proof {
            lemma_episode_index_of(store.episodes@, episode_uuid@);
        }
        let mut i: usize = 0;
        while i < store.episodes.len()
            invariant
                i <= store.episodes@.len(),
                forall|j: int| 0 <= j < i ==> store.episodes@[j].uuid@ != episode_uuid@,
                episode_index_of(store.episodes@, episode_uuid@) == -1
                    ==> forall|j: int| 0 <= j < store.episodes@.len()
                        ==> store.episodes@[j].uuid@ != episode_uuid@,
                episode_index_of(store.episodes@, episode_uuid@) != -1
                    ==> 0 <= episode_index_of(store.episodes@, episode_uuid@)
                            < store.episodes@.len()
                        && store.episodes@[episode_index_of(store.episodes@,
                            episode_uuid@)].uuid@ == episode_uuid@,
            decreases store.episodes@.len() - i,
        {
            if crate::text::str_eq(store.episodes[i].uuid.as_str(), episode_uuid) {
                proof {
                    lemma_episode_first(store.episodes@, i as int, episode_uuid@);
                }
                return Ok(store.episodes[i].clone_row());
            }
            i += 1;
        }
        Err(RepoError::NotFound)
    }

    /// The UUID of the album owning the episode with the given UUID.
    pub fn get_album_uuid_by_episode_uuid(store: &MediaStore, episode_uuid: &str) -> (r: Result<
        String,
        RepoError,
    >)
        ensures
            ({
                let ei = episode_index_of(store.episodes@, episode_uuid@);
                &&& (r is Ok <==> ei != -1 && album_id_index_of(store.albums@,
                    store.episodes@[ei].album_id as int) != -1)
                &&& (r matches Ok(u) ==> u@ == store.albums@[album_id_index_of(store.albums@,
                    store.episodes@[ei].album_id as int)].uuid@)
                &&& (r matches Err(e) ==> e == RepoError::NotFound)
            }),
    {
        let ep = match Self::get_episode_by_episode_uuid(store, episode_uuid) {
            Ok(e) => e,
            Err(_) => {
                return Err(RepoError::NotFound);
            },
        };
        match store.get_album_by_id(ep.album_id) {
            Ok(a) => Ok(a.uuid.clone()),
            Err(_) => Err(RepoError::NotFound),
        }
    }

    /// Update the episode row whose UUID matches; the count of changed
    /// rows.
    pub fn update_episode(store: &mut MediaStore, update_episode: Episode) -> (r: Result<
        usize,
        RepoError,
    >)
        requires
            old(store).inv(),
        ensures
            final(store).inv(),
            final(store).fs == old(store).fs,
            final(store).project_dir == old(store).project_dir,
            final(store).albums@ == old(store).albums@,
            final(store).contents@ == old(store).contents@,
            final(store).categories@ == old(store).categories@,
            r is Ok,
            r matches Ok(n) ==> {
                let idx = episode_index_of(old(store).episodes@, update_episode.uuid@);
                if idx == -1 {
                    n == 0 && final(store).episodes@ == old(store).episodes@
                } else {
                    n == 1 && final(store).episodes@ == old(store).episodes@.update(idx,
                        episode_with_id(update_episode, old(store).episodes@[idx].id))
                }
            },
    {
        proof {
            lemma_episode_index_of(store.episodes@, update_episode.uuid@);
        }
        let mut i: usize = 0;
        while i < store.episodes.len()
            invariant
                old(store).inv(),
                i <= store.episodes@.len(),
                store == old(store),
                forall|j: int| 0 <= j < i ==> store.episodes@[j].uuid@ != update_episode.uuid@,
            decreases store.episodes@.len() - i,
        {
            if crate::text::str_eq(store.episodes[i].uuid.as_str(),
                update_episode.uuid.as_str()) {
                proof {
                    lemma_episode_first(store.episodes@, i as int, update_episode.uuid@);
                }
                let kept_id = store.episodes[i].id;
                let row = Episode {
                    id: kept_id,
                    album_id: update_episode.album_id,
                    uuid: update_episode.uuid,
                    title: update_episode.title,
                    url: update_episode.url,
                    file_url: update_episode.file_url,
                    content_type: update_episode.content_type,
                    width: update_episode.width,
                    height: update_episode.height,
                    bytes: update_episode.bytes,
                    broken_at: update_episode.broken_at,
                    created_at: update_episode.created_at,
                    updated_at: update_episode.updated_at,
                };
                let ghost pre = store.episodes@;
                store.episodes.set(i, row);
                proof {
                    assert(forall|a: int| 0 <= a < store.episodes@.len() && a != i
                        ==> #[trigger] store.episodes@[a] == pre[a]);
                    assert(store.episodes@[i as int].uuid@ == pre[i as int].uuid@);
                    assert(store.episodes@[i as int].id == pre[i as int].id);
                    assert forall|a: int, b: int| 0 <= a < b < store.episodes@.len()
                        implies store.episodes@[a].uuid@ != store.episodes@[b].uuid@
                            && !(store.episodes@[a].id is Some && store.episodes@[a].id
                                == store.episodes@[b].id) by {
                        assert(pre[a].uuid@ != pre[b].uuid@);
                        assert(!(pre[a].id is Some && pre[a].id == pre[b].id));
                    }
                }
                return Ok(1);
            }
            i += 1;
        }
        Ok(0)
    }

    /// Delete the episode row whose UUID matches; the count of removed
    /// rows.
    pub fn delete_episode(store: &mut MediaStore, episode_uuid: &str) -> (r: Result<
        usize,
        RepoError,
    >)
        requires
            old(store).inv(),
        ensures
            final(store).inv(),
            final(store).fs == old(store).fs,
            final(store).project_dir == old(store).project_dir,
            final(store).albums@ == old(store).albums@,
            final(store).contents@ == old(store).contents@,
            final(store).categories@ == old(store).categories@,
            r is Ok,
            r matches Ok(n) ==> {
                let idx = episode_index_of(old(store).episodes@, episode_uuid@);
                if idx == -1 {
                    n == 0 && final(store).episodes@ == old(store).episodes@
                } else {
                    n == 1 && final(store).episodes@ == old(store).episodes@.remove(idx)
                }
            },
    {
        proof {
            lemma_episode_index_of(store.episodes@, episode_uuid@);
        }
        let mut i: usize = 0;
        while i < store.episodes.len()
            invariant
                old(store).inv(),
                i <= store.episodes@.len(),
                store == old(store),
                forall|j: int| 0 <= j < i ==> store.episodes@[j].uuid@ != episode_uuid@,
            decreases store.episodes@.len() - i,
        {
            if crate::text::str_eq(store.episodes[i].uuid.as_str(), episode_uuid) {
                proof {
                    lemma_episode_first(store.episodes@, i as int, episode_uuid@);
                }
                let ghost pre = store.episodes@;
                store.episodes.remove(i);
                proof {
                    assert(forall|a: int| 0 <= a < store.episodes@.len()
                        ==> store.episodes@[a] == (if a < i { pre[a] } else { pre[a + 1] }));
                    assert forall|a: int, b: int| 0 <= a < b < store.episodes@.len()
                        implies store.episodes@[a].uuid@ != store.episodes@[b].uuid@ by {
                        let pa: int = if a < i { a } else { a + 1 };
                        let pb: int = if b < i { b } else { b + 1 };
                        assert(pre[pa].uuid@ != pre[pb].uuid@);
                    }
                }
                return Ok(1);
            }
            i += 1;
        }
        Ok(0)
    }

    /// All episode rows of one album, in insertion order.
    pub fn get_episodes_by_album_id(store: &MediaStore, album_id: i32) -> (r: Vec<Episode>)
        ensures
            r@ == store.episodes@.filter(|e: Episode| e.album_id == album_id),
    {
        let mut r: Vec<Episode> = Vec::new();
        let mut i: usize = 0;
        proof {
            reveal_with_fuel(Seq::filter, 1);
            assert(store.episodes@.take(0int).filter(|e: Episode| e.album_id == album_id)
                =~= Seq::<Episode>::empty());
        }
        while i < store.episodes.len()
            invariant
                i <= store.episodes@.len(),
                r@ == store.episodes@.take(i as int).filter(
                    |e: Episode| e.album_id == album_id),
            decreases store.episodes@.len() - i,
        {
            proof {
                assert(store.episodes@.take(i + 1).drop_last() =~= store.episodes@.take(i as int));
                reveal_with_fuel(Seq::filter, 2);
            }
            if store.episodes[i].album_id == album_id {
                r.push(store.episodes[i].clone_row());
                proof {
                    assert(r@.drop_last() =~= store.episodes@.take(i as int).filter(
                        |e: Episode| e.album_id == album_id));
                    assert(r@.last() == store.episodes@[i as int]);
                    assert(r@ =~= store.episodes@.take(i + 1).filter(
                        |e: Episode| e.album_id == album_id));
                }
            }
            i += 1;
        }
        proof {
            assert(store.episodes@.take(store.episodes@.len() as int) =~= store.episodes@);
        }
        r
    }
}


/// How the row the create service inserts relates to the request, the
/// fresh identifiers and the staged bytes: media columns filled from the
/// staged file when one came.
pub open spec fn created_episode_matches(
    fsm: Map<Seq<char>, Seq<u8>>,
    req: CreateEpisodeRequest,
    album_uuid: Seq<char>,
    episode_uuid: Seq<char>,
    file_key: Seq<char>,
    id: int,
    e: Episode,
) -> bool {
    &&& e.id == Some(id as i32)
    &&& e.album_id == req.album_id
    &&& e.uuid@ == episode_uuid
    &&& e.title == req.title
    &&& match req.file {
        Some(f) => {
            &&& e.url matches Some(u) && u@ == episode_url(album_uuid, episode_uuid, file_key,
                f@)
            &&& e.content_type matches Some(c) && c@ == mime_of(f@)
            &&& e.width == image_width_of(fsm, f@) as i32
            &&& e.height == image_height_of(fsm, f@) as i32
            &&& e.bytes == fsm[f@].len() as u64 as i32
        },
        None => {
            &&& e.url is None
            &&& e.content_type is None
            &&& e.width == 0 && e.height == 0 && e.bytes == 0
        },
    }
    &&& e.file_url is None
    &&& e.broken_at is None && e.created_at is None && e.updated_at is None
}

/// Which way an episode create ends: parent album first, then the staged
/// file, then the row.
pub open spec fn create_episode_outcome(
    pre: MediaStore,
    req: CreateEpisodeRequest,
    episode_uuid: Seq<char>,
) -> Result<(), ServiceError> {
    if album_id_index_of(pre.albums@, req.album_id as int) == -1 {
        Err(ServiceError::NotFound)
    } else if req.file matches Some(f) && !pre.fs@.dom().contains(f@) {
        Err(ServiceError::Validation)
    } else if episode_index_of(pre.episodes@, episode_uuid) != -1
        || pre.next_episode_id == i32::MAX {
        Err(ServiceError::Persistence)
    } else {
        Ok(())
    }
}

/// The episode service.
pub struct Service;

impl Service {
    /// Create an episode: resolve the parent album, fill the media
    /// columns from the staged file, insert the row, and only then move
    /// the staged file to its destination.
    pub fn create_episode(
        store: &mut MediaStore,
        req_data: CreateEpisodeRequest,
        episode_uuid: String,
        file_key: String,
    ) -> (r: Result<EpisodeResponse, ServiceError>)
        requires
            old(store).inv(),
        ensures
            final(store).inv(),
            final(store).project_dir == old(store).project_dir,
            final(store).albums@ == old(store).albums@,
            final(store).contents@ == old(store).contents@,
            final(store).categories@ == old(store).categories@,
            r is Ok <==> create_episode_outcome(*old(store), req_data, episode_uuid@) is Ok,
            r matches Err(e) ==> create_episode_outcome(*old(store), req_data, episode_uuid@)
                == Err::<(), ServiceError>(e),
            r is Err ==> *final(store) == *old(store),
            r matches Ok(resp) ==> {
                let ai = album_id_index_of(old(store).albums@, req_data.album_id as int);
                let au = old(store).albums@[ai].uuid@;
                let row = final(store).episodes@.last();
                &&& final(store).episodes@ == old(store).episodes@.push(row)
                &&& created_episode_matches(old(store).fs@, req_data, au, episode_uuid@,
                    file_key@, old(store).next_episode_id as int, row)
                &&& episode_response_matches(row, resp)
                &&& match req_data.file {
                    Some(f) => final(store).fs@ == apply_move(old(store).fs@, f@,
                        old(store).project_dir@ + seq!['/'] + row.url->0@),
                    None => final(store).fs == old(store).fs,
                }
            },
    {
        let data = clone_opt_string(&req_data.file);
        let album_uuid = match store.get_album_by_id(req_data.album_id) {
            Ok(a) => a.uuid.clone(),
            Err(_) => {
                return Err(ServiceError::NotFound);
            },
        };
        let mut new_episode = Episode::from_create_request(req_data, album_uuid, episode_uuid,
            file_key);
        match &data {
            Some(src) => {
                let m = match get_file_metadata(&store.fs, src.as_str()) {
                    Some(m) => m,
                    None => {
                        return Err(ServiceError::Validation);
                    },
                };
                new_episode.content_type = Some(m.content_type);
                let dims = match m.image_data {
                    Some(d) => d,
                    None => ImageMetadata::default(),
                };
                new_episode.width = #[verifier::truncate] (dims.width as i32);
                new_episode.height = #[verifier::truncate] (dims.height as i32);
                new_episode.bytes = #[verifier::truncate] (m.size as i32);
            },
            None => {},
        }
        let episode = match Repository::create_episode(store, new_episode) {
            Ok(e) => e,
            Err(_) => {
                return Err(ServiceError::Persistence);
            },
        };
        let response = EpisodeResponse::from_episode(episode.clone_row());
        match (&data, &response.url) {
            (Some(src), Some(u)) => {
                let des_file_path = path_join(store.project_dir.as_str(), u.as_str());
                store.fs.move_file_and_replace(src.as_str(), des_file_path.as_str());
                proof {
                    assert(store.fs@ =~= apply_move(old(store).fs@, src@,
                        old(store).project_dir@ + seq!['/'] + u@));
                }
            },
            _ => {},
        }
        Ok(response)
    }

    /// Look an episode up by UUID and project it.
    pub fn get_episode_by_episode_uuid(store: &MediaStore, episode_uuid: String) -> (r: Result<
        EpisodeResponse,
        ServiceError,
    >)
        ensures
            r is Ok <==> episode_index_of(store.episodes@, episode_uuid@) != -1,
            r matches Ok(resp) ==> episode_response_matches(
                store.episodes@[episode_index_of(store.episodes@, episode_uuid@)], resp),
            r matches Err(e) ==> e == ServiceError::NotFound,
    {
        match Repository::get_episode_by_episode_uuid(store, episode_uuid.as_str()) {
            Ok(episode) => Ok(EpisodeResponse::from_episode(episode)),
            Err(_) => Err(ServiceError::NotFound),
        }
    }

    /// All episodes of one album, projected, with their count.
    pub fn get_episodes_by_album_id(store: &MediaStore, album_id: i32) -> (r:
        crate::common::ResponseData<EpisodeResponse>)
        requires
            store.episodes@.len() <= i64::MAX,
        ensures
            ({
                let rows = store.episodes@.filter(|e: Episode| e.album_id == album_id);
                &&& r.data@.len() == rows.len()
                &&& r.total == rows.len()
                &&& forall|i: int| 0 <= i < rows.len()
                    ==> episode_response_matches(rows[i], #[trigger] r.data@[i])
            }),
    {
        let rows = Repository::get_episodes_by_album_id(store, album_id);
        proof {
            store.episodes@.lemma_filter_len(|e: Episode| e.album_id == album_id);
        }
        let total = rows.len() as i64;
        let data = EpisodeResponse::from_episodes(rows);
        crate::common::ResponseData { data, total }
    }

    /// Delete an episode: its asset directory first, best-effort, then
    /// the row.  A missing episode is "not found", also on a second
    /// delete.
    pub fn delete_episode(store: &mut MediaStore, episode_uuid: String) -> (r: Result<
        usize,
        ServiceError,
    >)
        requires
            old(store).inv(),
        ensures
            final(store).inv(),
            final(store).project_dir == old(store).project_dir,
            final(store).albums@ == old(store).albums@,
            final(store).contents@ == old(store).contents@,
            final(store).categories@ == old(store).categories@,
            ({
                let ei = episode_index_of(old(store).episodes@, episode_uuid@);
                let found = ei != -1 && album_id_index_of(old(store).albums@,
                    old(store).episodes@[ei].album_id as int) != -1;
                &&& (r is Ok <==> found)
                &&& (r matches Err(e) ==> e == ServiceError::NotFound)
                &&& (!found ==> *final(store) == *old(store))
                &&& (found ==> {
                    let au = old(store).albums@[album_id_index_of(old(store).albums@,
                        old(store).episodes@[ei].album_id as int)].uuid@;
                    let dir = "data"@ + seq!['/'] + au + seq!['/'] + episode_uuid@;
                    &&& final(store).fs@ == old(store).fs@.filter_keys(
                        |p: Seq<char>| !is_under(p, dir))
                    &&& final(store).episodes@ == old(store).episodes@.remove(ei)
                    &&& r matches Ok(n) && n == 1
                    // afterwards no episode carries the UUID, so a second
                    // delete reports it missing
                    &&& episode_index_of(final(store).episodes@, episode_uuid@) == -1
                })
            }),
    {
        let album_uuid = match Repository::get_album_uuid_by_episode_uuid(store,
            episode_uuid.as_str()) {
            Ok(u) => u,
            Err(_) => {
                return Err(ServiceError::NotFound);
            },
        };
        let data_dir = get_data_directory();
        let filepath = path_join(
            path_join(data_dir.as_str(), album_uuid.as_str()).as_str(),
            episode_uuid.as_str(),
        );
        store.fs.delete_directory_if_exists(filepath.as_str());
        let r = Repository::delete_episode(store, episode_uuid.as_str());
        proof {
            let pre = old(store).episodes@;
            let ei = episode_index_of(pre, episode_uuid@);
            lemma_episode_index_of(pre, episode_uuid@);
            lemma_episode_index_of(store.episodes@, episode_uuid@);
            if ei != -1 && episode_index_of(store.episodes@, episode_uuid@) != -1 {
                let w = episode_index_of(store.episodes@, episode_uuid@);
                assert(store.episodes@ == pre.remove(ei));
                assert(forall|a: int| 0 <= a < pre.len() - 1
                    ==> pre.remove(ei)[a] == (if a < ei {
                        pre[a]
                    } else {
                        pre[a + 1]
                    }));
                if w < ei {
                    assert(pre[w].uuid@ == episode_uuid@);
                    assert(pre[ei].uuid@ == episode_uuid@);
                } else {
                    assert(pre[w + 1].uuid@ == episode_uuid@);
                    assert(pre[ei].uuid@ == episode_uuid@);
                }
                assert(false);
            }
        }
        match r {
            Ok(n) => {
                if n > 0 {
                    Ok(n)
                } else {
                    Err(ServiceError::NotFound)
                }
            },
            Err(_) => Err(ServiceError::NotFound),
        }
    }
}

/// Whether a supplied external file URL is present and not blank.
pub open spec fn file_url_present(req: UpdateEpisodeRequest) -> bool {
    req.file_url matches Some(u) && !is_blank(u@)
}

/// How the updated row looks before any newly staged file is applied:
/// a new file URL or an explicit removal resets the stored path and the
/// media columns.
pub open spec fn base_updated_episode(
    old_ep: Episode,
    req: UpdateEpisodeRequest,
    e: Episode,
) -> bool {
    let reset = file_url_present(req) || req.remove_old_file;
    &&& e.id == old_ep.id
    &&& e.album_id == old_ep.album_id
    &&& e.uuid == old_ep.uuid
    &&& e.title == (match req.title {
        Some(t) => t,
        None => old_ep.title,
    })
    &&& if reset {
        e.url matches Some(u) && u@.len() == 0
    } else {
        e.url == old_ep.url
    }
    &&& e.file_url == req.file_url
    &&& if reset {
        e.content_type matches Some(c) && c@.len() == 0
    } else {
        e.content_type == old_ep.content_type
    }
    &&& e.width == (if reset { 0int } else { old_ep.width as int })
    &&& e.height == (if reset { 0int } else { old_ep.height as int })
    &&& e.bytes == (if reset { 0int } else { old_ep.bytes as int })
    &&& e.broken_at == old_ep.broken_at
    &&& e.created_at == old_ep.created_at
    &&& e.updated_at == old_ep.updated_at
}

/// Build the updated episode row from the old row and the request; a new
/// file URL or an explicit removal resets the stored path and media
/// columns.
pub fn build_updated_episode(
    episode: &Episode,
    update_episode: &UpdateEpisodeRequest,
    file_url_exists: bool,
) -> (r: Episode)
    requires
        file_url_exists == file_url_present(*update_episode),
    ensures
        base_updated_episode(*episode, *update_episode, r),
{
    let should_reset_fields = file_url_exists || update_episode.remove_old_file;
    Episode {
        id: episode.id,
        album_id: episode.album_id,
        uuid: episode.uuid.clone(),
        title: match &update_episode.title {
            Some(t) => t.clone(),
            None => episode.title.clone(),
        },
        url: if should_reset_fields {
            Some(String::new())
        } else {
            clone_opt_string(&episode.url)
        },
        file_url: clone_opt_string(&update_episode.file_url),
        content_type: if should_reset_fields {
            Some(String::new())
        } else {
            clone_opt_string(&episode.content_type)
        },
        width: if should_reset_fields { 0 } else { episode.width },
        height: if should_reset_fields { 0 } else { episode.height },
        bytes: if should_reset_fields { 0 } else { episode.bytes },
        broken_at: episode.broken_at,
        created_at: episode.created_at,
        updated_at: episode.updated_at,
    }
}

/// Point the row at a newly staged file: fresh stored path under the
/// album and episode directories, media columns from the staged bytes.
pub fn update_episode_with_file(
    fs: &FsModel,
    new_episode: &mut Episode,
    src_path: &str,
    album_uuid: &str,
    episode_uuid: &str,
    new_key: &str,
) -> (r: Result<(), ServiceError>)
    requires
        fs.inv(),
    ensures
        r is Ok <==> fs@.dom().contains(src_path@),
        r matches Err(e) ==> e == ServiceError::Validation && *final(new_episode)
            == *old(new_episode),
        r is Ok ==> {
            let e = *final(new_episode);
            &&& e.url matches Some(u) && u@ == episode_url(album_uuid@, episode_uuid@,
                new_key@, src_path@)
            &&& e.content_type matches Some(c) && c@ == mime_of(src_path@)
            &&& e.width == image_width_of(fs@, src_path@) as i32
            &&& e.height == image_height_of(fs@, src_path@) as i32
            &&& e.bytes == fs@[src_path@].len() as u64 as i32
            &&& e.id == old(new_episode).id
            &&& e.album_id == old(new_episode).album_id
            &&& e.uuid == old(new_episode).uuid
            &&& e.title == old(new_episode).title
            &&& e.file_url == old(new_episode).file_url
            &&& e.broken_at == old(new_episode).broken_at
            &&& e.created_at == old(new_episode).created_at
            &&& e.updated_at == old(new_episode).updated_at
        },
{
    let m = match get_file_metadata(fs, src_path) {
        Some(m) => m,
        None => {
            return Err(ServiceError::Validation);
        },
    };
    let data_dir = get_data_directory();
    let ext = extension_of(src_path);
    let base = path_join(
        path_join(
            path_join(data_dir.as_str(), album_uuid).as_str(),
            episode_uuid,
        ).as_str(),
        new_key,
    );
    let new_url = with_extension(base.as_str(), ext.as_str());
    proof {
        assert(new_url@ =~= episode_url(album_uuid@, episode_uuid@, new_key@, src_path@));
    }
    new_episode.content_type = Some(m.content_type);
    let dims = match m.image_data {
        Some(d) => d,
        None => ImageMetadata::default(),
    };
    new_episode.width = #[verifier::truncate] (dims.width as i32);
    new_episode.height = #[verifier::truncate] (dims.height as i32);
    new_episode.bytes = #[verifier::truncate] (m.size as i32);
    new_episode.url = Some(new_url);
    Ok(())
}

/// What the cleanup step does to the file map: when the stored path
/// changed or an explicit removal was asked, the old file's directory is
/// dropped and any newly staged file is moved in.
pub open spec fn cleanup_fs_spec(
    m: Map<Seq<char>, Seq<u8>>,
    project: Seq<char>,
    req: UpdateEpisodeRequest,
    new_url: Option<Seq<char>>,
    old_url: Option<Seq<char>>,
) -> Map<Seq<char>, Seq<u8>> {
    if old_url != new_url || req.remove_old_file {
        let m1 = match old_url {
            Some(ou) => if !is_blank(ou) {
                match dir_prefix_of(project + seq!['/'] + ou) {
                    Some(d) => m.filter_keys(|p: Seq<char>| !is_under(p, d)),
                    None => m,
                }
            } else {
                m
            },
            None => m,
        };
        match (req.file, new_url) {
            (Some(src), Some(nu)) => apply_move(m1, src@, project + seq!['/'] + nu),
            _ => m1,
        }
    } else {
        m
    }
}

/// Drop the old file's directory and move the newly staged file in, when
/// the stored path changed or removal was asked; best-effort throughout.
pub fn handle_old_file_cleanup(
    fs: &mut FsModel,
    project_dir: &str,
    update_episode: &UpdateEpisodeRequest,
    new_episode: &Episode,
    old_url: &Option<String>,
)
    requires
        old(fs).inv(),
    ensures
        final(fs).inv(),
        final(fs)@ == cleanup_fs_spec(old(fs)@, project_dir@, *update_episode,
            opt_str_view(new_episode.url), opt_str_view(*old_url)),
{
    let urls_differ = !opt_str_eq(old_url, &new_episode.url);
    if urls_differ || update_episode.remove_old_file {
        match old_url {
            Some(ou) => {
                if !str_is_blank(ou.as_str()) {
                    let old_file_path = path_join(project_dir, ou.as_str());
                    match crate::paths::get_directory_from_file_path(old_file_path.as_str()) {
                        Some(old_directory_path) => {
                            fs.delete_directory_if_exists(old_directory_path.as_str());
                        },
                        None => {},
                    }
                }
            },
            None => {},
        }
        match (&update_episode.file, &new_episode.url) {
            (Some(src_file_path), Some(new_ep_url)) => {
                let dest_file_path = path_join(project_dir, new_ep_url.as_str());
                fs.move_file_and_replace(src_file_path.as_str(), dest_file_path.as_str());
            },
            _ => {},
        }
    }
}

/// Whether two optional strings hold the same characters.
pub fn opt_str_eq(a: &Option<String>, b: &Option<String>) -> (r: bool)
    ensures
        r == (opt_str_view(*a) == opt_str_view(*b)),
{
    match (a, b) {
        (Some(x), Some(y)) => crate::text::str_eq(x.as_str(), y.as_str()),
        (None, None) => true,
        _ => false,
    }
}


/// How the updated row relates to the old row, the request, the fresh
/// key and the staged bytes.
pub open spec fn updated_episode_matches(
    fsm: Map<Seq<char>, Seq<u8>>,
    old_ep: Episode,
    req: UpdateEpisodeRequest,
    album_uuid: Seq<char>,
    key: Seq<char>,
    now: Timestamp,
    e: Episode,
) -> bool {
    let reset = file_url_present(req) || req.remove_old_file;
    &&& e.id == old_ep.id
    &&& e.album_id == old_ep.album_id
    &&& e.uuid == old_ep.uuid
    &&& e.title == (match req.title {
        Some(t) => t,
        None => old_ep.title,
    })
    &&& e.file_url == req.file_url
    &&& e.broken_at == old_ep.broken_at
    &&& e.created_at == old_ep.created_at
    &&& e.updated_at == Some(now)
    &&& match req.file {
        Some(src) => {
            &&& e.url matches Some(u) && u@ == episode_url(album_uuid, old_ep.uuid@, key, src@)
            &&& e.content_type matches Some(c) && c@ == mime_of(src@)
            &&& e.width == image_width_of(fsm, src@) as i32
            &&& e.height == image_height_of(fsm, src@) as i32
            &&& e.bytes == fsm[src@].len() as u64 as i32
        },
        None => {
            &&& if reset {
                (e.url matches Some(u) && u@.len() == 0)
                    && (e.content_type matches Some(c) && c@.len() == 0)
                    && e.width == 0 && e.height == 0 && e.bytes == 0
            } else {
                e.url == old_ep.url && e.content_type == old_ep.content_type
                    && e.width == old_ep.width && e.height == old_ep.height
                    && e.bytes == old_ep.bytes
            }
        },
    }
}

/// Which way an episode update ends.
pub open spec fn update_episode_outcome(
    pre: MediaStore,
    episode_uuid: Seq<char>,
    req: UpdateEpisodeRequest,
) -> Result<(), ServiceError> {
    let ei = episode_index_of(pre.episodes@, episode_uuid);
    if ei == -1 {
        Err(ServiceError::NotFound)
    } else if album_id_index_of(pre.albums@, pre.episodes@[ei].album_id as int) == -1 {
        Err(ServiceError::NotFound)
    } else if req.file matches Some(f) && !pre.fs@.dom().contains(f@) {
        Err(ServiceError::Validation)
    } else {
        Ok(())
    }
}

impl Service {
    /// Update an episode: look the row and its album up, rebuild the row
    /// from the request (a newly staged file refilling the media
    /// columns), write it, and only then clean the old file's directory
    /// up and move the new file in.
    pub fn update_episode(
        store: &mut MediaStore,
        episode_uuid: String,
        update_episode: UpdateEpisodeRequest,
        new_key: String,
        now: Timestamp,
    ) -> (r: Result<EpisodeResponse, ServiceError>)
        requires
            old(store).inv(),
        ensures
            final(store).inv(),
            final(store).project_dir == old(store).project_dir,
            final(store).albums@ == old(store).albums@,
            final(store).contents@ == old(store).contents@,
            final(store).categories@ == old(store).categories@,
            r is Ok <==> update_episode_outcome(*old(store), episode_uuid@, update_episode)
                is Ok,
            r matches Err(e) ==> update_episode_outcome(*old(store), episode_uuid@,
                update_episode) == Err::<(), ServiceError>(e),
            r is Err ==> *final(store) == *old(store),
            r matches Ok(resp) ==> {
                let ei = episode_index_of(old(store).episodes@, episode_uuid@);
                let old_ep = old(store).episodes@[ei];
                let au = old(store).albums@[album_id_index_of(old(store).albums@,
                    old_ep.album_id as int)].uuid@;
                let row = final(store).episodes@[ei];
                &&& final(store).episodes@ == old(store).episodes@.update(ei, row)
                &&& updated_episode_matches(old(store).fs@, old_ep, update_episode, au,
                    new_key@, now, row)
                &&& episode_response_matches(row, resp)
                &&& final(store).fs@ == cleanup_fs_spec(old(store).fs@,
                    old(store).project_dir@, update_episode, opt_str_view(row.url),
                    opt_str_view(old_ep.url))
            },
    {
        let file_url_exists = match &update_episode.file_url {
            Some(url) => !str_is_blank(url.as_str()),
            None => false,
        };
        let episode = match Repository::get_episode_by_episode_uuid(store,
            episode_uuid.as_str()) {
            Ok(e) => e,
            Err(_) => {
                return Err(ServiceError::NotFound);
            },
        };
        let album_uuid = match Repository::get_album_uuid_by_episode_uuid(store,
            episode_uuid.as_str()) {
            Ok(u) => u,
            Err(_) => {
                return Err(ServiceError::NotFound);
            },
        };
        let mut new_episode = build_updated_episode(&episode, &update_episode,
            file_url_exists);
        match &update_episode.file {
            Some(src_path) => {
                match update_episode_with_file(&store.fs, &mut new_episode, src_path.as_str(),
                    album_uuid.as_str(), episode_uuid.as_str(), new_key.as_str()) {
                    Ok(_) => {},
                    Err(e) => {
                        return Err(e);
                    },
                }
            },
            None => {},
        }
        new_episode.updated_at = Some(now);
        proof {
            lemma_episode_index_of(store.episodes@, episode_uuid@);
        }
        match Repository::update_episode(store, new_episode.clone_row()) {
            Ok(size) => {
                if size > 0 {
                    let project = project_dir_of(store);
                    handle_old_file_cleanup(&mut store.fs, project.as_str(),
                        &update_episode, &new_episode, &episode.url);
                    Ok(EpisodeResponse::from_episode(new_episode))
                } else {
                    Err(ServiceError::NotFound)
                }
            },
            Err(_) => Err(ServiceError::Persistence),
        }
    }
}

/// The project directory, copied out of the store.
pub fn project_dir_of(store: &MediaStore) -> (r: String)
    ensures
        r == store.project_dir,
{
    store.project_dir.clone()
}


} // verus!
