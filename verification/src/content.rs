//! Per-episode content assets: many files committed in one request.

use vstd::prelude::*;
use crate::common::{RepoError, ServiceError, IngestError};
use crate::fields::FieldMap;
use crate::value::{ValueModel, i32_opt_of, str_opt_of};
use crate::timefmt::{Timestamp, render_matches, opt_naive_datetime_to_utc_opt_string};
use crate::text::str_views;
use crate::album::{opt_str_view, clone_opt_string, image_width_of, image_height_of};
use crate::episode::{Episode, episode_url};
use crate::paths::{path_join, with_extension, extension_of, get_data_directory, is_blank};
use crate::metadata::{mime_of, get_file_metadata, ImageMetadata};
use crate::store::{MediaStore, FileMove, apply_move, apply_moves, moves_all_present, moves_views, commit_moves, content_index_of, lemma_content_index_of, lemma_content_first, episode_id_index_of, lemma_episode_id_index_of, lemma_episode_id_first, album_id_index_of};

verus! {

/// A content row.
#[derive(Debug, Clone)]
pub struct Content {
    pub id: Option<i32>,
    pub episode_id: i32,
    pub uuid: String,
    pub index_no: i32,
    pub url: String,
    pub ads_url: Option<String>,
    pub content_type: String,
    pub width: i32,
    pub height: i32,
    pub bytes: i32,
    pub broken_at: Option<Timestamp>,
    pub created_at: Option<Timestamp>,
    pub updated_at: Option<Timestamp>,
}

impl Content {
    /// A field-for-field copy of the row.
    pub fn clone_row(&self) -> (r: Content)
        ensures
            r == *self,
    {
        Content {
            id: self.id,
            episode_id: self.episode_id,
            uuid: self.uuid.clone(),
            index_no: self.index_no,
            url: self.url.clone(),
            ads_url: clone_opt_string(&self.ads_url),
            content_type: self.content_type.clone(),
            width: self.width,
            height: self.height,
            bytes: self.bytes,
            broken_at: self.broken_at,
            created_at: self.created_at,
            updated_at: self.updated_at,
        }
    }
}

/// The outward projection of a content row.
#[derive(Debug, Clone, PartialEq, Eq)]
pub struct ContentResponse {
    pub id: Option<i32>,
    pub episode_id: i32,
    pub uuid: String,
    pub index_no: i32,
    pub url: String,
    pub ads_url: Option<String>,
    pub content_type: String,
    pub width: i32,
    pub height: i32,
    pub bytes: i32,
    pub broken_at: Option<String>,
}

/// How a response relates to the row it projects.
pub open spec fn content_response_matches(c: Content, r: ContentResponse) -> bool {
    &&& r.id == c.id
    &&& r.episode_id == c.episode_id
    &&& r.uuid == c.uuid
    &&& r.index_no == c.index_no
    &&& r.url == c.url
    &&& r.ads_url == c.ads_url
    &&& r.content_type == c.content_type
    &&& r.width == c.width
    &&& r.height == c.height
    &&& r.bytes == c.bytes
    &&& render_matches(c.broken_at, opt_str_view(r.broken_at))
}

impl ContentResponse {
    /// Project one row.
    pub fn from_content(content: Content) -> (r: Self)
        ensures
            content_response_matches(content, r),
    {
        ContentResponse {
            id: content.id,
            episode_id: content.episode_id,
            uuid: content.uuid,
            index_no: content.index_no,
            url: content.url,
            ads_url: content.ads_url,
            content_type: content.content_type,
            width: content.width,
            height: content.height,
            bytes: content.bytes,
            broken_at: opt_naive_datetime_to_utc_opt_string(content.broken_at),
        }
    }

    /// Project many rows, in order.
    pub fn from_contents(contents: Vec<Content>) -> (r: Vec<Self>)
        ensures
            r@.len() == contents@.len(),
            forall|i: int| 0 <= i < r@.len()
                ==> content_response_matches(contents@[i], #[trigger] r@[i]),
    {
        let mut r: Vec<ContentResponse> = Vec::new();
        let mut i: usize = 0;
        while i < contents.len()
            invariant
                i <= contents@.len(),
                r@.len() == i,
                forall|j: int| 0 <= j < i
                    ==> content_response_matches(contents@[j], #[trigger] r@[j]),
            decreases contents@.len() - i,
        {
            let row = contents[i].clone_row();
            r.push(ContentResponse::from_content(row));
            i += 1;
        }
        r
    }
}

/// The request to add content files to an episode.
#[derive(Debug, Clone)]
pub struct AddEpisodeContentsRequest {
    pub episode_id: i32,
    /// Staged paths of the uploaded content files.
    pub files: Vec<String>,
}

/// When the add-contents binding succeeds: an in-range integer
/// `episode_id` and at least one staged file.
pub open spec fn add_contents_binds(m: Map<Seq<char>, ValueModel>) -> bool {
    &&& m.dom().contains("episode_id"@)
    &&& m["episode_id"@] matches ValueModel::Int(v) && i32::MIN <= v <= i32::MAX
    &&& m.dom().contains("files"@)
    &&& crate::fields::paths_of_value(m["files"@]).len() >= 1
}

impl AddEpisodeContentsRequest {
    /// Bind the merged field map; an empty file list is rejected.
    pub fn from_payload_data(payload_data: &FieldMap) -> (r: Result<Self, IngestError>)
        requires
            payload_data.inv(),
        ensures
            r is Ok <==> add_contents_binds(payload_data@),
            r matches Ok(req) ==> {
                &&& i32_opt_of(payload_data@["episode_id"@]) == Some(req.episode_id)
                &&& str_views(req.files@) == crate::fields::paths_of_value(
                    payload_data@["files"@])
            },
            r matches Err(e) ==> e == IngestError::Bind,
    {
        let files = if payload_data.contains_key("files") {
            payload_data.get_paths("files")
        } else {
            Vec::new()
        };
        if files.len() == 0 {
            return Err(IngestError::Bind);
        }
        let episode_id = match payload_data.get_i32("episode_id") {
            Some(v) => v,
            None => {
                return Err(IngestError::Bind);
            },
        };
        Ok(AddEpisodeContentsRequest { episode_id, files })
    }
}

/// The request to update one content asset.
#[derive(Debug, Clone)]
pub struct UpdateContentRequest {
    /// Staged path of a replacement file, when one was uploaded.
    pub file: Option<String>,
    pub ads_url: Option<String>,
    pub index_no: Option<i32>,
}

impl UpdateContentRequest {
    /// Bind the merged field map; every field is optional.
    pub fn from_payload_data(payload_data: &FieldMap) -> (r: Result<Self, IngestError>)
        requires
            payload_data.inv(),
        ensures
            r is Ok,
            r matches Ok(req) ==> {
                &&& opt_str_view(req.file) == {
                    let ps = if payload_data@.dom().contains("file"@) {
                        crate::fields::paths_of_value(payload_data@["file"@])
                    } else {
                        Seq::<Seq<char>>::empty()
                    };
                    if ps.len() == 0 {
                        None
                    } else {
                        Some(ps[0])
                    }
                }
                &&& opt_str_view(req.ads_url) == if payload_data@.dom().contains("ads_url"@) {
                    str_opt_of(payload_data@["ads_url"@])
                } else {
                    None
                }
                &&& req.index_no == if payload_data@.dom().contains("index_no"@) {
                    i32_opt_of(payload_data@["index_no"@])
                } else {
                    None
                }
            },
    {
        let file_paths = if payload_data.contains_key("file") {
            payload_data.get_paths("file")
        } else {
            Vec::new()
        };
        let file = if file_paths.len() == 0 {
            None
        } else {
            Some(file_paths[0].clone())
        };
        let ads_url = if payload_data.contains_key("ads_url") {
            payload_data.get_string("ads_url")
        } else {
            None
        };
        let index_no = if payload_data.contains_key("index_no") {
            payload_data.get_i32("index_no")
        } else {
            None
        };
        Ok(UpdateContentRequest { file, ads_url, index_no })
    }
}

/// The row operations on the content table.
pub struct Repository;

/// Whether a batch of new rows can be inserted: every UUID fresh and the
/// batch itself free of duplicates.
pub open spec fn batch_uuids_ok(pre: Seq<Content>, rows: Seq<Content>) -> bool {
    &&& forall|i: int| 0 <= i < rows.len()
        ==> content_index_of(pre, #[trigger] rows[i].uuid@) == -1
    &&& forall|i: int, j: int| 0 <= i < j < rows.len() ==> rows[i].uuid@ != rows[j].uuid@
}

impl Repository {
    /// Insert a batch of content rows; the store assigns consecutive ids.
    pub fn create_contents(store: &mut MediaStore, new_contents: Vec<Content>) -> (r: Result<
        usize,
        RepoError,
    >)
        requires
            old(store).inv(),
        ensures
            final(store).inv(),
            final(store).fs == old(store).fs,
            final(store).project_dir == old(store).project_dir,
            final(store).albums@ == old(store).albums@,
            final(store).episodes@ == old(store).episodes@,
            final(store).categories@ == old(store).categories@,
            r is Ok <==> batch_uuids_ok(old(store).contents@, new_contents@)
                && old(store).next_content_id + new_contents@.len() <= i32::MAX,
            r matches Ok(n) ==> {
                &&& n == new_contents@.len()
                &&& final(store).contents@.len() == old(store).contents@.len()
                    + new_contents@.len()
                &&& (forall|i: int| 0 <= i < old(store).contents@.len()
                    ==> #[trigger] final(store).contents@[i] == old(store).contents@[i])
                &&& (forall|i: int| 0 <= i < new_contents@.len() ==> {
                    let row = #[trigger] final(store).contents@[old(store).contents@.len() + i];
                    &&& row.id == Some((old(store).next_content_id + i) as i32)
                    &&& row.episode_id == new_contents@[i].episode_id
                    &&& row.uuid == new_contents@[i].uuid
                    &&& row.index_no == new_contents@[i].index_no
                    &&& row.url == new_contents@[i].url
                    &&& row.ads_url == new_contents@[i].ads_url
                    &&& row.content_type == new_contents@[i].content_type
                    &&& row.width == new_contents@[i].width
                    &&& row.height == new_contents@[i].height
                    &&& row.bytes == new_contents@[i].bytes
                    &&& row.broken_at == new_contents@[i].broken_at
                    &&& row.created_at == new_contents@[i].created_at
                    &&& row.updated_at == new_contents@[i].updated_at
                })
                &&& final(store).next_content_id == old(store).next_content_id
                    + new_contents@.len()
            },
            r is Err ==> *final(store) == *old(store)
                && (r matches Err(e) && e == RepoError::Conflict),
    {
        // refuse the batch up front when a UUID is stale or repeated, or
        // the id space cannot take it, as the row store's constraints would
        let mut i: usize = 0;
        while i < new_contents.len()
            invariant
                old(store).inv(),
                store == old(store),
                i <= new_contents@.len(),
                forall|j: int| 0 <= j < i
                    ==> content_index_of(store.contents@, #[trigger] new_contents@[j].uuid@)
                        == -1,
                forall|a: int, b: int| 0 <= a < b < i
                    ==> new_contents@[a].uuid@ != new_contents@[b].uuid@,
            decreases new_contents@.len() - i,
        {
            let mut k: usize = 0;
            while k < store.contents.len()
                invariant
                    old(store).inv(),
                    store == old(store),
                    i < new_contents@.len(),
                    k <= store.contents@.len(),
                    forall|j: int| 0 <= j < k
                        ==> store.contents@[j].uuid@ != new_contents@[i as int].uuid@,
                decreases store.contents@.len() - k,
            {
                if crate::text::str_eq(store.contents[k].uuid.as_str(),
                    new_contents[i].uuid.as_str()) {
                    proof {
                        lemma_content_first(store.contents@, k as int,
                            new_contents@[i as int].uuid@);
                    }
                    return Err(RepoError::Conflict);
                }
                k += 1;
            }
            proof {
                lemma_content_index_of(store.contents@, new_contents@[i as int].uuid@);
            }
            let mut j: usize = 0;
            while j < i
                invariant
                    old(store).inv(),
                    store == old(store),
                    i < new_contents@.len(),
                    j <= i,
                    forall|a: int| 0 <= a < j
                        ==> new_contents@[a].uuid@ != new_contents@[i as int].uuid@,
                decreases i - j,
            {
                if crate::text::str_eq(new_contents[j].uuid.as_str(),
                    new_contents[i].uuid.as_str()) {
                    return Err(RepoError::Conflict);
                }
                j += 1;
            }
            i += 1;
        }
        let cap: i64 = i32::MAX as i64 - store.next_content_id as i64;
        if new_contents.len() as u64 > cap as u64 {
            return Err(RepoError::Conflict);
        }
        let n = new_contents.len();
        let ghost orig = *store;
        let mut w: usize = 0;
        while w < n
            invariant
                orig.inv(),
                n == new_contents@.len(),
                w <= n,
                store.fs == orig.fs,
                store.project_dir == orig.project_dir,
                store.albums == orig.albums,
                store.episodes == orig.episodes,
                store.categories == orig.categories,
                store.next_album_id == orig.next_album_id,
                store.next_episode_id == orig.next_episode_id,
                store.next_category_id == orig.next_category_id,
                store.next_content_id == orig.next_content_id + w,
                orig.next_content_id + n <= i32::MAX,
                store.contents@.len() == orig.contents@.len() + w,
                forall|j: int| 0 <= j < orig.contents@.len()
                    ==> #[trigger] store.contents@[j] == orig.contents@[j],
                forall|j: int| 0 <= j < w ==> {
                    let row = #[trigger] store.contents@[orig.contents@.len() + j];
                    &&& row.id == Some((orig.next_content_id + j) as i32)
                    &&& row.episode_id == new_contents@[j].episode_id
                    &&& row.uuid == new_contents@[j].uuid
                    &&& row.index_no == new_contents@[j].index_no
                    &&& row.url == new_contents@[j].url
                    &&& row.ads_url == new_contents@[j].ads_url
                    &&& row.content_type == new_contents@[j].content_type
                    &&& row.width == new_contents@[j].width
                    &&& row.height == new_contents@[j].height
                    &&& row.bytes == new_contents@[j].bytes
                    &&& row.broken_at == new_contents@[j].broken_at
                    &&& row.created_at == new_contents@[j].created_at
                    &&& row.updated_at == new_contents@[j].updated_at
                },
                forall|j: int| 0 <= j < new_contents@.len()
                    ==> content_index_of(orig.contents@, #[trigger] new_contents@[j].uuid@)
                        == -1,
                forall|a: int, b: int| 0 <= a < b < new_contents@.len()
                    ==> new_contents@[a].uuid@ != new_contents@[b].uuid@,
                forall|a: int, b: int| 0 <= a < b < store.contents@.len()
                    ==> store.contents@[a].uuid@ != store.contents@[b].uuid@,
                forall|a: int, b: int| 0 <= a < b < store.contents@.len()
                    ==> !(store.contents@[a].id is Some && store.contents@[a].id
                        == store.contents@[b].id),
                forall|a: int| 0 <= a < store.contents@.len()
                    ==> (#[trigger] store.contents@[a].id matches Some(v)
                        ==> v < orig.next_content_id + w),
            decreases n - w,
        {
            let ghost pre_contents = store.contents@;
            let mut row = new_contents[w].clone_row();
            let id = store.next_content_id;
            store.next_content_id = id + 1;
            row.id = Some(id);
            store.contents.push(row);
            proof {
                assert(forall|j: int| 0 <= j < pre_contents.len()
                    ==> #[trigger] store.contents@[j] == pre_contents[j]);
                lemma_content_index_of(orig.contents@, new_contents@[w as int].uuid@);
                assert forall|a: int, b: int| 0 <= a < b < store.contents@.len()
                    implies store.contents@[a].uuid@ != store.contents@[b].uuid@ by {
                    if b < store.contents@.len() - 1 {
                        assert(pre_contents[a].uuid@ != pre_contents[b].uuid@);
                    } else {
                        assert(store.contents@[b].uuid@ == new_contents@[w as int].uuid@);
                        if a < orig.contents@.len() {
                            assert(store.contents@[a] == orig.contents@[a]);
                        } else {
                            let j = a - orig.contents@.len();
                            assert(store.contents@[orig.contents@.len() + j]
                                == store.contents@[a]);
                            assert(store.contents@[a].uuid@ == new_contents@[j].uuid@);
                        }
                    }
                }
                assert forall|a: int, b: int| 0 <= a < b < store.contents@.len()
                    implies !(store.contents@[a].id is Some && store.contents@[a].id
                        == store.contents@[b].id) by {
                    if b < store.contents@.len() - 1 {
                        assert(!(pre_contents[a].id is Some && pre_contents[a].id
                            == pre_contents[b].id));
                    } else {
                        assert(store.contents@[b].id == Some((orig.next_content_id + w) as i32));
                        assert(store.contents@[a] == pre_contents[a]);
                    }
                }
                assert forall|a: int| 0 <= a < store.contents@.len()
                    implies (#[trigger] store.contents@[a].id matches Some(v)
                        ==> v < orig.next_content_id + w + 1) by {
                    if a < store.contents@.len() - 1 {
                        assert(store.contents@[a] == pre_contents[a]);
                    }
                }
            }
            w += 1;
        }
        Ok(n)
    }
}


/// The update's fields with the key column kept: row-store changesets
/// never touch the primary key.
pub open spec fn content_with_id(c: Content, id: Option<i32>) -> Content {
    Content {
        id,
        episode_id: c.episode_id,
        uuid: c.uuid,
        index_no: c.index_no,
        url: c.url,
        ads_url: c.ads_url,
        content_type: c.content_type,
        width: c.width,
        height: c.height,
        bytes: c.bytes,
        broken_at: c.broken_at,
        created_at: c.created_at,
        updated_at: c.updated_at,
    }
}

/// The largest index number among an episode's contents, when it has any.
pub open spec fn max_index_for(s: Seq<Content>, eid: int) -> Option<int>
    decreases s.len(),
{
    if s.len() == 0 {
        None
    } else {
        let rest = max_index_for(s.drop_last(), eid);
        if s.last().episode_id == eid {
            match rest {
                None => Some(s.last().index_no as int),
                Some(m) => if s.last().index_no > m {
                    Some(s.last().index_no as int)
                } else {
                    Some(m)
                },
            }
        } else {
            rest
        }
    }
}

/// Index numbers live in the index column, so any maximum fits it.
pub proof fn lemma_max_index_range(s: Seq<Content>, eid: int)
    ensures
        max_index_for(s, eid) matches Some(m) ==> i32::MIN <= m <= i32::MAX,
    decreases s.len(),
{
    if s.len() > 0 {
        lemma_max_index_range(s.drop_last(), eid);
    }
}

/// The index the next content of an episode receives.
pub open spec fn next_index_for(s: Seq<Content>, eid: int) -> int {
    match max_index_for(s, eid) {
        None => 0,
        Some(m) => m + 1,
    }
}

impl Repository {
    /// All content rows of one episode, in insertion order.
    pub fn get_contents_by_episode_id(store: &MediaStore, episode_id_val: i32) -> (r: Vec<
        Content,
    >)
        ensures
            r@ == store.contents@.filter(|c: Content| c.episode_id == episode_id_val),
    {
        let mut r: Vec<Content> = Vec::new();
        let mut i: usize = 0;
        proof {
            reveal_with_fuel(Seq::filter, 1);
            assert(store.contents@.take(0int).filter(
                |c: Content| c.episode_id == episode_id_val) =~= Seq::<Content>::empty());
        }
        while i < store.contents.len()
            invariant
                i <= store.contents@.len(),
                r@ == store.contents@.take(i as int).filter(
                    |c: Content| c.episode_id == episode_id_val),
            decreases store.contents@.len() - i,
        {
            proof {
                assert(store.contents@.take(i + 1).drop_last()
                    =~= store.contents@.take(i as int));
                reveal_with_fuel(Seq::filter, 2);
            }
            if store.contents[i].episode_id == episode_id_val {
                r.push(store.contents[i].clone_row());
                proof {
                    assert(r@.drop_last() =~= store.contents@.take(i as int).filter(
                        |c: Content| c.episode_id == episode_id_val));
                    assert(r@ =~= store.contents@.take(i + 1).filter(
                        |c: Content| c.episode_id == episode_id_val));
                }
            }
            i += 1;
        }
        proof {
            assert(store.contents@.take(store.contents@.len() as int) =~= store.contents@);
        }
        r
    }

    /// Find a content row by UUID, when one exists.
    pub fn get_content_by_uuid(store: &MediaStore, content_uuid: &str) -> (r: Option<Content>)
        ensures
            r is Some <==> content_index_of(store.contents@, content_uuid@) != -1,
            r matches Some(c)
                ==> c == store.contents@[content_index_of(store.contents@, content_uuid@)],
    {
        proof {
            lemma_content_index_of(store.contents@, content_uuid@);
        }
        let mut i: usize = 0;
        while i < store.contents.len()
            invariant
                i <= store.contents@.len(),
                forall|j: int| 0 <= j < i ==> store.contents@[j].uuid@ != content_uuid@,
                content_index_of(store.contents@, content_uuid@) != -1
                    ==> 0 <= content_index_of(store.contents@, content_uuid@)
                        < store.contents@.len(),
            decreases store.contents@.len() - i,
        {
            if crate::text::str_eq(store.contents[i].uuid.as_str(), content_uuid) {
                proof {
                    lemma_content_first(store.contents@, i as int, content_uuid@);
                }
                return Some(store.contents[i].clone_row());
            }
            i += 1;
        }
        proof {
            lemma_content_index_of(store.contents@, content_uuid@);
        }
        None
    }

    /// The index the next content of an episode receives; absent when the
    /// episode has no contents yet, an error when the episode itself does
    /// not exist or its index space is spent.
    pub fn get_next_index_by_episode_id(store: &MediaStore, episode_id_val: i32) -> (r: Result<
        Option<i32>,
        RepoError,
    >)
        ensures
            ({
                let ei = episode_id_index_of(store.episodes@, episode_id_val as int);
                let mx = max_index_for(store.contents@, episode_id_val as int);
                &&& (ei == -1 ==> r == Err::<Option<i32>, RepoError>(RepoError::NotFound))
                &&& (ei != -1 ==> match mx {
                    None => r == Ok::<Option<i32>, RepoError>(None),
                    Some(m) => if m < i32::MAX {
                        r == Ok::<Option<i32>, RepoError>(Some((m + 1) as i32))
                    } else {
                        r == Err::<Option<i32>, RepoError>(RepoError::Conflict)
                    },
                })
            }),
    {
        if Self::find_episode_by_id(store, episode_id_val).is_none() {
            return Err(RepoError::NotFound);
        }
        let mut best: Option<i32> = None;
        let mut i: usize = 0;
        while i < store.contents.len()
            invariant
                i <= store.contents@.len(),
                match best {
                    None => max_index_for(store.contents@.take(i as int),
                        episode_id_val as int) is None,
                    Some(b) => max_index_for(store.contents@.take(i as int),
                        episode_id_val as int) == Some(b as int),
                },
            decreases store.contents@.len() - i,
        {
            proof {
                assert(store.contents@.take(i + 1).drop_last()
                    =~= store.contents@.take(i as int));
            }
            if store.contents[i].episode_id == episode_id_val {
                let v = store.contents[i].index_no;
                best = match best {
                    None => Some(v),
                    Some(b) => if v > b {
                        Some(v)
                    } else {
                        Some(b)
                    },
                };
            }
            i += 1;
        }
        proof {
            assert(store.contents@.take(store.contents@.len() as int) =~= store.contents@);
        }
        match best {
            None => Ok(None),
            Some(m) => {
                if m < i32::MAX {
                    Ok(Some(m + 1))
                } else {
                    Err(RepoError::Conflict)
                }
            },
        }
    }

    /// The UUID of the album owning the episode with the given id.
    pub fn get_album_uuid_by_episode_id(store: &MediaStore, episode_id_val: i32) -> (r: Option<
        String,
    >)
        ensures
            ({
                let ei = episode_id_index_of(store.episodes@, episode_id_val as int);
                &&& (r is Some <==> ei != -1 && album_id_index_of(store.albums@,
                    store.episodes@[ei].album_id as int) != -1)
                &&& (r matches Some(u) ==> u@ == store.albums@[album_id_index_of(store.albums@,
                    store.episodes@[ei].album_id as int)].uuid@)
            }),
    {
        let ep = match Self::find_episode_by_id(store, episode_id_val) {
            Some(e) => e,
            None => {
                return None;
            },
        };
        match store.get_album_by_id(ep.album_id) {
            Ok(a) => Some(a.uuid.clone()),
            Err(_) => None,
        }
    }

    /// The UUID of the episode with the given id.
    pub fn get_episode_uuid_by_id(store: &MediaStore, episode_id_val: i32) -> (r: Option<String>)
        ensures
            ({
                let ei = episode_id_index_of(store.episodes@, episode_id_val as int);
                &&& (r is Some <==> ei != -1)
                &&& (r matches Some(u) ==> u@ == store.episodes@[ei].uuid@)
            }),
    {
        match Self::find_episode_by_id(store, episode_id_val) {
            Some(e) => Some(e.uuid),
            None => None,
        }
    }

    /// The id of the episode with the given UUID.
    pub fn get_episode_id_by_uuid(store: &MediaStore, episode_uuid: &str) -> (r: Option<i32>)
        ensures
            ({
                let ei = crate::store::episode_index_of(store.episodes@, episode_uuid@);
                &&& (r is Some <==> ei != -1 && store.episodes@[ei].id is Some)
                &&& (r matches Some(v) ==> store.episodes@[ei].id == Some(v))
            }),
    {
        match crate::episode::Repository::get_episode_by_episode_uuid(store, episode_uuid) {
            Ok(e) => e.id,
            Err(_) => None,
        }
    }

    /// Find an episode row by its numeric id.
    fn find_episode_by_id(store: &MediaStore, episode_id_val: i32) -> (r: Option<Episode>)
        ensures
            ({
                let ei = episode_id_index_of(store.episodes@, episode_id_val as int);
                &&& (r is Some <==> ei != -1)
                &&& (r matches Some(e) ==> e == store.episodes@[ei])
            }),
    {
        proof {
            lemma_episode_id_index_of(store.episodes@, episode_id_val as int);
        }
        let mut i: usize = 0;
        while i < store.episodes.len()
            invariant
                i <= store.episodes@.len(),
                forall|j: int| 0 <= j < i
                    ==> !(#[trigger] store.episodes@[j].id matches Some(v)
                        && v == episode_id_val),
                episode_id_index_of(store.episodes@, episode_id_val as int) != -1
                    ==> 0 <= episode_id_index_of(store.episodes@, episode_id_val as int)
                        < store.episodes@.len(),
            decreases store.episodes@.len() - i,
        {
            let hit = match store.episodes[i].id {
                Some(v) => v == episode_id_val,
                None => false,
            };
            if hit {
                proof {
                    lemma_episode_id_first(store.episodes@, i as int, episode_id_val as int);
                }
                return Some(store.episodes[i].clone_row());
            }
            i += 1;
        }
        proof {
            lemma_episode_id_index_of(store.episodes@, episode_id_val as int);
        }
        None
    }

    /// Update the content row whose UUID matches; the count of changed
    /// rows.
    pub fn update_content(store: &mut MediaStore, update: Content) -> (r: Result<
        usize,
        RepoError,
    >)
        requires
            old(store).inv(),
        ensures
            final(store).inv(),
            final(store).fs == old(store).fs,
            final(store).project_dir == old(store).project_dir,
            final(store).albums@ == old(store).albums@,
            final(store).episodes@ == old(store).episodes@,
            final(store).categories@ == old(store).categories@,
            r is Ok,
            r matches Ok(n) ==> {
                let idx = content_index_of(old(store).contents@, update.uuid@);
                if idx == -1 {
                    n == 0 && final(store).contents@ == old(store).contents@
                } else {
                    n == 1 && final(store).contents@ == old(store).contents@.update(idx,
                        content_with_id(update, old(store).contents@[idx].id))
                }
            },
    {
        proof {
            lemma_content_index_of(store.contents@, update.uuid@);
        }
        let mut i: usize = 0;
        while i < store.contents.len()
            invariant
                old(store).inv(),
                i <= store.contents@.len(),
                store == old(store),
                forall|j: int| 0 <= j < i ==> store.contents@[j].uuid@ != update.uuid@,
            decreases store.contents@.len() - i,
        {
            if crate::text::str_eq(store.contents[i].uuid.as_str(), update.uuid.as_str()) {
                proof {
                    lemma_content_first(store.contents@, i as int, update.uuid@);
                }
                let kept_id = store.contents[i].id;
                let row = Content {
                    id: kept_id,
                    episode_id: update.episode_id,
                    uuid: update.uuid,
                    index_no: update.index_no,
                    url: update.url,
                    ads_url: update.ads_url,
                    content_type: update.content_type,
                    width: update.width,
                    height: update.height,
                    bytes: update.bytes,
                    broken_at: update.broken_at,
                    created_at: update.created_at,
                    updated_at: update.updated_at,
                };
                let ghost pre = store.contents@;
                store.contents.set(i, row);
                proof {
                    assert(forall|a: int| 0 <= a < store.contents@.len() && a != i
                        ==> #[trigger] store.contents@[a] == pre[a]);
                    assert(store.contents@[i as int].uuid@ == pre[i as int].uuid@);
                    assert(store.contents@[i as int].id == pre[i as int].id);
                    assert forall|a: int, b: int| 0 <= a < b < store.contents@.len()
                        implies store.contents@[a].uuid@ != store.contents@[b].uuid@
                            && !(store.contents@[a].id is Some && store.contents@[a].id
                                == store.contents@[b].id) by {
                        assert(pre[a].uuid@ != pre[b].uuid@);
                        assert(!(pre[a].id is Some && pre[a].id == pre[b].id));
                    }
                }
                return Ok(1);
            }
            i += 1;
        }
        Ok(0)
    }

    /// Delete the content row whose UUID matches; the count of removed
    /// rows.
    pub fn delete_content(store: &mut MediaStore, content_uuid: &str) -> (r: Result<
        usize,
        RepoError,
    >)
        requires
            old(store).inv(),
        ensures
            final(store).inv(),
            final(store).fs == old(store).fs,
            final(store).project_dir == old(store).project_dir,
            final(store).albums@ == old(store).albums@,
            final(store).episodes@ == old(store).episodes@,
            final(store).categories@ == old(store).categories@,
            r is Ok,
            r matches Ok(n) ==> {
                let idx = content_index_of(old(store).contents@, content_uuid@);
                if idx == -1 {
                    n == 0 && final(store).contents@ == old(store).contents@
                } else {
                    n == 1 && final(store).contents@ == old(store).contents@.remove(idx)
                }
            },
    {
        proof {
            lemma_content_index_of(store.contents@, content_uuid@);
        }
        let mut i: usize = 0;
        while i < store.contents.len()
            invariant
                old(store).inv(),
                i <= store.contents@.len(),
                store == old(store),
                forall|j: int| 0 <= j < i ==> store.contents@[j].uuid@ != content_uuid@,
            decreases store.contents@.len() - i,
        {
            if crate::text::str_eq(store.contents[i].uuid.as_str(), content_uuid) {
                proof {
                    lemma_content_first(store.contents@, i as int, content_uuid@);
                }
                let ghost pre = store.contents@;
                store.contents.remove(i);
                proof {
                    assert(forall|a: int| 0 <= a < store.contents@.len()
                        ==> store.contents@[a] == (if a < i { pre[a] } else { pre[a + 1] }));
                    assert forall|a: int, b: int| 0 <= a < b < store.contents@.len()
                        implies store.contents@[a].uuid@ != store.contents@[b].uuid@ by {
                        let pa: int = if a < i { a } else { a + 1 };
                        let pb: int = if b < i { b } else { b + 1 };
                        assert(pre[pa].uuid@ != pre[pb].uuid@);
                    }
                }
                return Ok(1);
            }
            i += 1;
        }
        Ok(0)
    }
}

/// The staged file paths of an add request, blanks dropped.
pub open spec fn filtered_files(req: AddEpisodeContentsRequest) -> Seq<Seq<char>> {
    str_views(req.files@).filter(|s: Seq<char>| !is_blank(s))
}

/// How one inserted content row relates to its staged file, the fresh
/// identifier and the running index.
pub open spec fn created_content_matches(
    fsm: Map<Seq<char>, Seq<u8>>,
    eid: int,
    album_uuid: Seq<char>,
    episode_uuid: Seq<char>,
    key: Seq<char>,
    src: Seq<char>,
    idx_no: int,
    id: int,
    c: Content,
) -> bool {
    &&& c.id == Some(id as i32)
    &&& c.episode_id == eid
    &&& c.uuid@ == key
    &&& c.index_no == idx_no
    &&& c.url@ == episode_url(album_uuid, episode_uuid, key, src)
    &&& c.ads_url is None
    &&& c.content_type@ == mime_of(src)
    &&& c.width == image_width_of(fsm, src) as i32
    &&& c.height == image_height_of(fsm, src) as i32
    &&& c.bytes == fsm[src].len() as u64 as i32
    &&& c.broken_at is None && c.created_at is None && c.updated_at is None
}

/// Whether the first `n` fresh identifiers are unused and pairwise
/// distinct.
pub open spec fn batch_keys_fresh(contents: Seq<Content>, uuids: Seq<Seq<char>>, n: int) -> bool {
    &&& forall|i: int| 0 <= i < n ==> content_index_of(contents, #[trigger] uuids[i]) == -1
    &&& forall|i: int, j: int| 0 <= i < j < n ==> uuids[i] != uuids[j]
}

/// Whether the id and index columns can take `n` more rows.
pub open spec fn add_ids_fit(pre: MediaStore, eid: int, n: int) -> bool {
    &&& n <= i32::MAX
    &&& pre.next_content_id + n <= i32::MAX
    &&& (n == 0 || next_index_for(pre.contents@, eid) + n - 1 <= i32::MAX)
}

/// The moves an add-contents request performs.
pub open spec fn add_contents_pairs(
    project: Seq<char>,
    album_uuid: Seq<char>,
    episode_uuid: Seq<char>,
    uuids: Seq<Seq<char>>,
    fp: Seq<Seq<char>>,
) -> Seq<(Seq<char>, Seq<char>)> {
    Seq::new(fp.len(), |i: int| (fp[i], project + seq!['/'] + episode_url(album_uuid,
        episode_uuid, uuids[i], fp[i])))
}

/// Which way an add-contents request ends, in protocol order: resolve the
/// episode and album, validate every staged file, write the rows, then
/// move the files.
pub open spec fn add_contents_outcome(
    pre: MediaStore,
    req: AddEpisodeContentsRequest,
    uuids: Seq<Seq<char>>,
) -> Result<(), ServiceError> {
    let eid = req.episode_id as int;
    let ei = episode_id_index_of(pre.episodes@, eid);
    let mx = max_index_for(pre.contents@, eid);
    if ei == -1 {
        Err(ServiceError::NotFound)
    } else if mx matches Some(m) && m == i32::MAX {
        Err(ServiceError::Persistence)
    } else if album_id_index_of(pre.albums@, pre.episodes@[ei].album_id as int) == -1 {
        Err(ServiceError::NotFound)
    } else {
        let fp = filtered_files(req);
        let au = pre.albums@[album_id_index_of(pre.albums@,
            pre.episodes@[ei].album_id as int)].uuid@;
        let eu = pre.episodes@[ei].uuid@;
        if exists|i: int| 0 <= i < fp.len() && !pre.fs@.dom().contains(#[trigger] fp[i]) {
            Err(ServiceError::Validation)
        } else if !add_ids_fit(pre, eid, fp.len() as int)
            || !batch_keys_fresh(pre.contents@, uuids, fp.len() as int) {
            Err(ServiceError::Persistence)
        } else if fp.len() != req.files@.len() {
            Err(ServiceError::FileExchange)
        } else if !moves_all_present(pre.fs@, add_contents_pairs(pre.project_dir@, au, eu,
            uuids, fp)) {
            Err(ServiceError::FileExchange)
        } else {
            Ok(())
        }
    }
}

/// The content service.
pub struct Service;

impl Service {
    /// Add content files to an episode: resolve the episode and its
    /// album, validate every staged file, insert one row per file with
    /// consecutive index numbers, and only then move the staged files to
    /// their destinations.  After the rows are in, a dropped blank path or
    /// a staged file missing at its move is a file-exchange error with the
    /// rows kept and every other move still performed.
    #[verifier::loop_isolation(false)]
    pub fn add_episode_contents(
        store: &mut MediaStore,
        req: AddEpisodeContentsRequest,
        content_uuids: Vec<String>,
    ) -> (r: Result<Vec<ContentResponse>, ServiceError>)
        requires
            old(store).inv(),
            content_uuids@.len() == req.files@.len(),
        ensures
            final(store).inv(),
            final(store).project_dir == old(store).project_dir,
            final(store).albums@ == old(store).albums@,
            final(store).episodes@ == old(store).episodes@,
            final(store).categories@ == old(store).categories@,
            r is Ok <==> add_contents_outcome(*old(store), req, str_views(content_uuids@)) is Ok,
            r matches Err(e) ==> add_contents_outcome(*old(store), req,
                str_views(content_uuids@)) == Err::<(), ServiceError>(e),
            (r matches Err(e) && e != ServiceError::FileExchange)
                ==> *final(store) == *old(store),
            (r is Ok || (r matches Err(e) && e == ServiceError::FileExchange)) ==> {
                let eid = req.episode_id as int;
                let ei = episode_id_index_of(old(store).episodes@, eid);
                let au = old(store).albums@[album_id_index_of(old(store).albums@,
                    old(store).episodes@[ei].album_id as int)].uuid@;
                let eu = old(store).episodes@[ei].uuid@;
                let fp = filtered_files(req);
                let base = next_index_for(old(store).contents@, eid);
                let uuids = str_views(content_uuids@);
                &&& final(store).contents@.len() == old(store).contents@.len() + fp.len()
                &&& (forall|i: int| 0 <= i < old(store).contents@.len()
                    ==> #[trigger] final(store).contents@[i] == old(store).contents@[i])
                &&& (forall|i: int| 0 <= i < fp.len() ==> created_content_matches(
                    old(store).fs@, eid, au, eu, uuids[i], fp[i], base + i,
                    old(store).next_content_id + i,
                    #[trigger] final(store).contents@[old(store).contents@.len() + i]))
                &&& (fp.len() == req.files@.len() ==> final(store).fs@ == apply_moves(
                    old(store).fs@, add_contents_pairs(old(store).project_dir@, au, eu, uuids,
                    fp)))
                &&& (fp.len() != req.files@.len() ==> final(store).fs == old(store).fs)
            },
            r matches Ok(resp) ==> {
                let rows = final(store).contents@.filter(
                    |c: Content| c.episode_id == req.episode_id);
                &&& resp@.len() == rows.len()
                &&& forall|i: int| 0 <= i < rows.len()
                    ==> content_response_matches(rows[i], #[trigger] resp@[i])
            },
    {
        let ghost pre = *old(store);
        let next_index = match Repository::get_next_index_by_episode_id(store, req.episode_id) {
            Ok(v) => v,
            Err(RepoError::NotFound) => {
                return Err(ServiceError::NotFound);
            },
            Err(_) => {
                proof {
                    lemma_max_index_range(store.contents@, req.episode_id as int);
                }
                return Err(ServiceError::Persistence);
            },
        };
        proof {
            lemma_max_index_range(store.contents@, req.episode_id as int);
        }
        let base: i32 = match next_index {
            Some(v) => v,
            None => 0,
        };
        let album_uuid = match Repository::get_album_uuid_by_episode_id(store, req.episode_id) {
            Some(u) => u,
            None => {
                return Err(ServiceError::NotFound);
            },
        };
        let episode_uuid = match Repository::get_episode_uuid_by_id(store, req.episode_id) {
            Some(u) => u,
            None => {
                return Err(ServiceError::NotFound);
            },
        };
        let mut file_paths = crate::fields::clone_string_vec(&req.files);
        let ghost pre_filter = file_paths@;
        crate::paths::retain_non_blank(&mut file_paths);
        proof {
            crate::text::lemma_str_views_filter(pre_filter,
                |s: String| !is_blank(s@),
                |u: Seq<char>| !is_blank(u));
            assert(str_views(file_paths@) =~= filtered_files(req));
            str_views(req.files@).lemma_filter_len(|s: Seq<char>| !is_blank(s));
        }
        let ghost fp = filtered_files(req);
        // validate every staged file before any row is written
        let mut v: usize = 0;
        while v < file_paths.len()
            invariant
                v <= file_paths@.len(),
                store == old(store),
                str_views(file_paths@) == fp,
                forall|j: int| 0 <= j < v
                    ==> store.fs@.dom().contains(#[trigger] fp[j]),
            decreases file_paths@.len() - v,
        {
            proof {
                assert(str_views(file_paths@)[v as int] == file_paths@[v as int]@);
            }
            if !store.fs.exists_file(file_paths[v].as_str()) {
                return Err(ServiceError::Validation);
            }
            v += 1;
        }
        // the index column must take one number per file
        if file_paths.len() as u64 > i32::MAX as u64 {
            return Err(ServiceError::Persistence);
        }
        if file_paths.len() > 0 {
            let room: i64 = i32::MAX as i64 - base as i64;
            if file_paths.len() as u64 - 1 > room as u64 {
                proof {
                    assert(base as int == next_index_for(pre.contents@,
                        req.episode_id as int));
                    assert(fp.len() == file_paths@.len());
                    assert(next_index_for(pre.contents@, req.episode_id as int)
                        + fp.len() - 1 > i32::MAX);
                    assert(!add_ids_fit(pre, req.episode_id as int, fp.len() as int));
                    assert(!(exists|w: int| 0 <= w < fp.len()
                        && !pre.fs@.dom().contains(#[trigger] fp[w])));
                    assert(add_contents_outcome(pre, req, str_views(content_uuids@))
                        == Err::<(), ServiceError>(ServiceError::Persistence));
                }
                return Err(ServiceError::Persistence);
            }
        }
        let ghost au = album_uuid@;
        let ghost eu = episode_uuid@;
        let ghost uuids = str_views(content_uuids@);
        let mut new_contents: Vec<Content> = Vec::new();
        let mut i: usize = 0;
        while i < file_paths.len()
            invariant
                i <= file_paths@.len(),
                file_paths@.len() <= content_uuids@.len(),
                store == old(store),
                store.fs.inv(),
                str_views(file_paths@) == fp,
                uuids == str_views(content_uuids@),
                au == album_uuid@,
                eu == episode_uuid@,
                forall|j: int| 0 <= j < fp.len()
                    ==> store.fs@.dom().contains(#[trigger] fp[j]),
                base + file_paths@.len() - 1 <= i32::MAX || file_paths@.len() == 0,
                new_contents@.len() == i,
                forall|j: int| 0 <= j < i ==> {
                    let c = #[trigger] new_contents@[j];
                    &&& c.id is None
                    &&& c.episode_id == req.episode_id
                    &&& c.uuid@ == uuids[j]
                    &&& c.index_no == base + j
                    &&& c.url@ == episode_url(au, eu, uuids[j], fp[j])
                    &&& c.ads_url is None
                    &&& c.content_type@ == mime_of(fp[j])
                    &&& c.width == image_width_of(store.fs@, fp[j]) as i32
                    &&& c.height == image_height_of(store.fs@, fp[j]) as i32
                    &&& c.bytes == store.fs@[fp[j]].len() as u64 as i32
                    &&& c.broken_at is None && c.created_at is None && c.updated_at is None
                },
            decreases file_paths@.len() - i,
        {
            proof {
                assert(str_views(file_paths@)[i as int] == file_paths@[i as int]@);
                assert(str_views(content_uuids@)[i as int] == content_uuids@[i as int]@);
            }
            let file_path = file_paths[i].clone();
            let m = match get_file_metadata(&store.fs, file_path.as_str()) {
                Some(m) => m,
                None => {
                    return Err(ServiceError::Validation);
                },
            };
            let key = content_uuids[i].clone();
            let data_dir = get_data_directory();
            let ext = extension_of(file_path.as_str());
            let new_url = with_extension(
                path_join(
                    path_join(
                        path_join(data_dir.as_str(), album_uuid.as_str()).as_str(),
                        episode_uuid.as_str(),
                    ).as_str(),
                    key.as_str(),
                ).as_str(),
                ext.as_str(),
            );
            proof {
                assert(new_url@ =~= episode_url(au, eu, uuids[i as int], fp[i as int]));
            }
            let dims = match m.image_data {
                Some(d) => d,
                None => ImageMetadata::default(),
            };
            new_contents.push(Content {
                id: None,
                episode_id: req.episode_id,
                uuid: key,
                index_no: ((base as i64) + (i as i64)) as i32,
                url: new_url,
                ads_url: None,
                content_type: m.content_type,
                width: #[verifier::truncate] (dims.width as i32),
                height: #[verifier::truncate] (dims.height as i32),
                bytes: #[verifier::truncate] (m.size as i32),
                broken_at: None,
                created_at: None,
                updated_at: None,
            });
            i += 1;
        }
        let ghost rows_g = new_contents@;
        match Repository::create_contents(store, new_contents) {
            Ok(_) => {},
            Err(_) => {
                return Err(ServiceError::Persistence);
            },
        }
        proof {
            assert forall|w: int| 0 <= w < fp.len()
                implies content_index_of(pre.contents@, #[trigger] uuids[w]) == -1 by {
                assert(rows_g[w].uuid@ == uuids[w]);
            }
            assert forall|a: int, b: int| 0 <= a < b < fp.len()
                implies uuids[a] != uuids[b] by {
                assert(rows_g[a].uuid@ == uuids[a]);
                assert(rows_g[b].uuid@ == uuids[b]);
            }
            assert(batch_keys_fresh(pre.contents@, uuids, fp.len() as int));
            assert(add_ids_fit(pre, req.episode_id as int, fp.len() as int));
        }
        if file_paths.len() != req.files.len() {
            return Err(ServiceError::FileExchange);
        }
        let ghost pairs = add_contents_pairs(pre.project_dir@, au, eu, uuids, fp);
        let mut moves: Vec<FileMove> = Vec::new();
        let mut k: usize = 0;
        proof {
            assert(moves_views(moves@) =~= pairs.take(0int));
        }
        while k < file_paths.len()
            invariant
                k <= file_paths@.len(),
                file_paths@.len() <= content_uuids@.len(),
                store.project_dir@ == pre.project_dir@,
                str_views(file_paths@) == fp,
                uuids == str_views(content_uuids@),
                au == album_uuid@,
                eu == episode_uuid@,
                pairs == add_contents_pairs(pre.project_dir@, au, eu, uuids, fp),
                moves_views(moves@) == pairs.take(k as int),
            decreases file_paths@.len() - k,
        {
            proof {
                assert(str_views(file_paths@)[k as int] == file_paths@[k as int]@);
                assert(str_views(content_uuids@)[k as int] == content_uuids@[k as int]@);
            }
            let data_dir = get_data_directory();
            let ext = extension_of(file_paths[k].as_str());
            let dest_rel = with_extension(
                path_join(
                    path_join(
                        path_join(data_dir.as_str(), album_uuid.as_str()).as_str(),
                        episode_uuid.as_str(),
                    ).as_str(),
                    content_uuids[k].as_str(),
                ).as_str(),
                ext.as_str(),
            );
            let d = path_join(store.project_dir.as_str(), dest_rel.as_str());
            proof {
                assert(d@ =~= pre.project_dir@ + seq!['/'] + episode_url(au, eu,
                    uuids[k as int], fp[k as int]));
            }
            let ghost pre_moves = moves@;
            moves.push(FileMove { src: file_paths[k].clone(), dest: d });
            proof {
                assert(moves_views(moves@) =~= moves_views(pre_moves).push((fp[k as int],
                    pre.project_dir@ + seq!['/'] + episode_url(au, eu, uuids[k as int],
                    fp[k as int])))) by {
                    assert(forall|j: int| 0 <= j < pre_moves.len()
                        ==> #[trigger] moves@[j] == pre_moves[j]);
                }
                assert(moves_views(moves@) =~= pairs.take(k + 1));
            }
            k += 1;
        }
        proof {
            assert(pairs.take(pairs.len() as int) =~= pairs);
        }
        let lost = commit_moves(&mut store.fs, &moves);
        if lost {
            return Err(ServiceError::FileExchange);
        }
        let rows = Repository::get_contents_by_episode_id(store, req.episode_id);
        Ok(ContentResponse::from_contents(rows))
    }
}


/// How the updated content row relates to the old row, the request, the
/// fresh identifier and the staged bytes.
pub open spec fn updated_content_matches(
    fsm: Map<Seq<char>, Seq<u8>>,
    old_c: Content,
    req: UpdateContentRequest,
    album_uuid: Seq<char>,
    episode_uuid: Seq<char>,
    new_key: Seq<char>,
    now: Timestamp,
    c: Content,
) -> bool {
    &&& c.id == old_c.id
    &&& c.episode_id == old_c.episode_id
    &&& match req.file {
        Some(src) => {
            &&& c.uuid@ == new_key
            &&& c.url@ == episode_url(album_uuid, episode_uuid, new_key, src@)
            &&& c.content_type@ == mime_of(src@)
            &&& c.width == image_width_of(fsm, src@) as i32
            &&& c.height == image_height_of(fsm, src@) as i32
            &&& c.bytes == fsm[src@].len() as u64 as i32
        },
        None => {
            &&& c.uuid == old_c.uuid
            &&& c.url == old_c.url
            &&& c.content_type == old_c.content_type
            &&& c.width == old_c.width && c.height == old_c.height && c.bytes == old_c.bytes
        },
    }
    &&& c.ads_url == (match req.ads_url {
        Some(u) => Some(u),
        None => old_c.ads_url,
    })
    &&& c.index_no == (match req.index_no {
        Some(v) => v,
        None => old_c.index_no,
    })
    &&& c.broken_at == old_c.broken_at
    &&& c.created_at == old_c.created_at
    &&& c.updated_at == Some(now)
}

/// Which way a content update ends.
pub open spec fn update_content_outcome(
    pre: MediaStore,
    content_uuid: Seq<char>,
    req: UpdateContentRequest,
    new_key: Seq<char>,
) -> Result<(), ServiceError> {
    let ci = content_index_of(pre.contents@, content_uuid);
    if ci == -1 {
        Err(ServiceError::NotFound)
    } else {
        match req.file {
            Some(src) => {
                let old_c = pre.contents@[ci];
                let ei = episode_id_index_of(pre.episodes@, old_c.episode_id as int);
                if ei == -1 {
                    Err(ServiceError::NotFound)
                } else if album_id_index_of(pre.albums@,
                    pre.episodes@[ei].album_id as int) == -1 {
                    Err(ServiceError::NotFound)
                } else if !pre.fs@.dom().contains(src@) {
                    Err(ServiceError::Validation)
                } else if new_key != content_uuid
                    && content_index_of(pre.contents@.remove(ci), new_key) != -1 {
                    Err(ServiceError::Persistence)
                } else {
                    Ok(())
                }
            },
            None => Ok(()),
        }
    }
}

impl Service {
    /// The contents of an episode, looked up by the episode's UUID.
    pub fn get_contents_by_episode_uuid(store: &MediaStore, episode_uuid: String) -> (r: Result<
        crate::common::ResponseData<ContentResponse>,
        ServiceError,
    >)
        requires
            store.contents@.len() <= i64::MAX,
        ensures
            ({
                let ei = crate::store::episode_index_of(store.episodes@, episode_uuid@);
                &&& (r is Ok <==> ei != -1 && store.episodes@[ei].id is Some)
                &&& (r matches Err(e) ==> e == ServiceError::NotFound)
                &&& (r matches Ok(resp) ==> {
                    let rows = store.contents@.filter(
                        |c: Content| c.episode_id == store.episodes@[ei].id->0);
                    &&& resp.data@.len() == rows.len()
                    &&& resp.total == rows.len()
                    &&& forall|i: int| 0 <= i < rows.len()
                        ==> content_response_matches(rows[i], #[trigger] resp.data@[i])
                })
            }),
    {
        let ep_id = match Repository::get_episode_id_by_uuid(store, episode_uuid.as_str()) {
            Some(v) => v,
            None => {
                return Err(ServiceError::NotFound);
            },
        };
        let rows = Repository::get_contents_by_episode_id(store, ep_id);
        proof {
            store.contents@.lemma_filter_len(|c: Content| c.episode_id == ep_id);
        }
        let total = rows.len() as i64;
        let data = ContentResponse::from_contents(rows);
        Ok(crate::common::ResponseData { data, total })
    }

    /// Update one content asset: look the row up, rebuild it (a newly
    /// staged file renaming the asset and refilling the media columns),
    /// write the row, and only then delete the old file and move the new
    /// one in.
    #[verifier::loop_isolation(false)]
    pub fn update_content(
        store: &mut MediaStore,
        content_uuid: String,
        update_content_request: UpdateContentRequest,
        new_key: String,
        now: Timestamp,
    ) -> (r: Result<ContentResponse, ServiceError>)
        requires
            old(store).inv(),
        ensures
            final(store).inv(),
            final(store).project_dir == old(store).project_dir,
            final(store).albums@ == old(store).albums@,
            final(store).episodes@ == old(store).episodes@,
            final(store).categories@ == old(store).categories@,
            r is Ok <==> update_content_outcome(*old(store), content_uuid@,
                update_content_request, new_key@) is Ok,
            r matches Err(e) ==> update_content_outcome(*old(store), content_uuid@,
                update_content_request, new_key@) == Err::<(), ServiceError>(e),
            r is Err ==> *final(store) == *old(store),
            r matches Ok(resp) ==> {
                let ci = content_index_of(old(store).contents@, content_uuid@);
                let old_c = old(store).contents@[ci];
                let row = final(store).contents@[ci];
                let ei = episode_id_index_of(old(store).episodes@, old_c.episode_id as int);
                let au = if ei == -1 {
                    Seq::<char>::empty()
                } else {
                    old(store).albums@[album_id_index_of(old(store).albums@,
                        old(store).episodes@[ei].album_id as int)].uuid@
                };
                let eu = if ei == -1 {
                    Seq::<char>::empty()
                } else {
                    old(store).episodes@[ei].uuid@
                };
                &&& final(store).contents@ == old(store).contents@.update(ci, row)
                &&& updated_content_matches(old(store).fs@, old_c, update_content_request, au,
                    eu, new_key@, now, row)
                &&& content_response_matches(row, resp)
                &&& match update_content_request.file {
                    Some(src) => final(store).fs@ == apply_move(
                        old(store).fs@.remove(old_c.url@), src@,
                        old(store).project_dir@ + seq!['/'] + row.url@),
                    None => final(store).fs == old(store).fs,
                }
            },
    {
        let old_content = match Repository::get_content_by_uuid(store, content_uuid.as_str()) {
            Some(c) => c,
            None => {
                return Err(ServiceError::NotFound);
            },
        };
        proof {
            lemma_content_index_of(store.contents@, content_uuid@);
        }
        let mut update = old_content.clone_row();
        let file_src = clone_opt_string(&update_content_request.file);
        match &file_src {
            Some(src) => {
                let episode_uuid = match Repository::get_episode_uuid_by_id(store,
                    old_content.episode_id) {
                    Some(u) => u,
                    None => {
                        return Err(ServiceError::NotFound);
                    },
                };
                let album_uuid = match Repository::get_album_uuid_by_episode_id(store,
                    old_content.episode_id) {
                    Some(u) => u,
                    None => {
                        return Err(ServiceError::NotFound);
                    },
                };
                let m = match get_file_metadata(&store.fs, src.as_str()) {
                    Some(m) => m,
                    None => {
                        return Err(ServiceError::Validation);
                    },
                };
                if !crate::text::str_eq(new_key.as_str(), content_uuid.as_str()) {
                    let clash = match Repository::get_content_by_uuid(store, new_key.as_str()) {
                        Some(_) => true,
                        None => false,
                    };
                    if clash {
                        proof {
                            let ci = content_index_of(store.contents@, content_uuid@);
                            let oi = content_index_of(store.contents@, new_key@);
                            lemma_content_index_of(store.contents@, new_key@);
                            lemma_index_after_remove(store.contents@, ci, new_key@);
                        }
                        return Err(ServiceError::Persistence);
                    }
                    proof {
                        let ci = content_index_of(store.contents@, content_uuid@);
                        lemma_content_index_of(store.contents@, new_key@);
                        lemma_index_after_remove(store.contents@, ci, new_key@);
                    }
                }
                let data_dir = get_data_directory();
                let ext = extension_of(src.as_str());
                let new_url = with_extension(
                    path_join(
                        path_join(
                            path_join(data_dir.as_str(), album_uuid.as_str()).as_str(),
                            episode_uuid.as_str(),
                        ).as_str(),
                        new_key.as_str(),
                    ).as_str(),
                    ext.as_str(),
                );
                proof {
                    let ci = content_index_of(store.contents@, content_uuid@);
                    let ei = episode_id_index_of(store.episodes@,
                        store.contents@[ci].episode_id as int);
                    assert(new_url@ =~= episode_url(album_uuid@, episode_uuid@, new_key@,
                        src@));
                }
                update.uuid = new_key.clone();
                update.url = new_url;
                update.content_type = m.content_type;
                let dims = match m.image_data {
                    Some(d) => d,
                    None => ImageMetadata::default(),
                };
                update.width = #[verifier::truncate] (dims.width as i32);
                update.height = #[verifier::truncate] (dims.height as i32);
                update.bytes = #[verifier::truncate] (m.size as i32);
            },
            None => {},
        }
        match &update_content_request.ads_url {
            Some(u) => {
                update.ads_url = Some(u.clone());
            },
            None => {},
        }
        match update_content_request.index_no {
            Some(v) => {
                update.index_no = v;
            },
            None => {},
        }
        update.updated_at = Some(now);
        let row = update.clone_row();
        match replace_content_by_uuid(store, content_uuid.as_str(), update) {
            Ok(_) => {},
            Err(_) => {
                return Err(ServiceError::Persistence);
            },
        }
        match &file_src {
            Some(src) => {
                store.fs.delete_file_if_exists(old_content.url.as_str());
                let des_path = path_join(store.project_dir.as_str(), row.url.as_str());
                store.fs.move_file_and_replace(src.as_str(), des_path.as_str());
                proof {
                    assert(store.fs@ =~= apply_move(old(store).fs@.remove(old_content.url@),
                        src@, old(store).project_dir@ + seq!['/'] + row.url@));
                }
            },
            None => {},
        }
        Ok(ContentResponse::from_content(row))
    }

    /// Delete one content asset: its file first, best-effort, then the
    /// row; a missing asset is "not found", also on a second delete.
    pub fn delete_content(store: &mut MediaStore, content_uuid: String) -> (r: Result<
        usize,
        ServiceError,
    >)
        requires
            old(store).inv(),
        ensures
            final(store).inv(),
            final(store).project_dir == old(store).project_dir,
            final(store).albums@ == old(store).albums@,
            final(store).episodes@ == old(store).episodes@,
            final(store).categories@ == old(store).categories@,
            ({
                let ci = content_index_of(old(store).contents@, content_uuid@);
                &&& (r is Ok <==> ci != -1)
                &&& (r matches Err(e) ==> e == ServiceError::NotFound)
                &&& (ci == -1 ==> *final(store) == *old(store))
                &&& (ci != -1 ==> {
                    &&& final(store).fs@ == old(store).fs@.remove(
                        old(store).contents@[ci].url@)
                    &&& final(store).contents@ == old(store).contents@.remove(ci)
                    &&& r matches Ok(n) && n == 1
                })
                // afterwards no content carries the UUID, so a second
                // delete reports it missing
                &&& content_index_of(final(store).contents@, content_uuid@) == -1
            }),
    {
        let content = match Repository::get_content_by_uuid(store, content_uuid.as_str()) {
            Some(c) => c,
            None => {
                return Err(ServiceError::NotFound);
            },
        };
        store.fs.delete_file_if_exists(content.url.as_str());
        let r = Repository::delete_content(store, content_uuid.as_str());
        proof {
            let pre = old(store).contents@;
            let ci = content_index_of(pre, content_uuid@);
            lemma_content_index_of(pre, content_uuid@);
            lemma_content_index_of(store.contents@, content_uuid@);
            if ci != -1 && content_index_of(store.contents@, content_uuid@) != -1 {
                let w = content_index_of(store.contents@, content_uuid@);
                assert(store.contents@ == pre.remove(ci));
                assert(forall|a: int| 0 <= a < pre.len() - 1
                    ==> pre.remove(ci)[a] == (if a < ci {
                        pre[a]
                    } else {
                        pre[a + 1]
                    }));
                if w < ci {
                    assert(pre[w].uuid@ == content_uuid@);
                    assert(pre[ci].uuid@ == content_uuid@);
                } else {
                    assert(pre[w + 1].uuid@ == content_uuid@);
                    assert(pre[ci].uuid@ == content_uuid@);
                }
                assert(false);
            }
        }
        match r {
            Ok(n) => {
                if n > 0 {
                    Ok(n)
                } else {
                    Err(ServiceError::NotFound)
                }
            },
            Err(_) => Err(ServiceError::NotFound),
        }
    }
}

/// Removing an index leaves the first match of every other key intact.
proof fn lemma_index_after_remove(s: Seq<Content>, i: int, key: Seq<char>)
    requires
        forall|a: int, b: int| 0 <= a < b < s.len() ==> s[a].uuid@ != s[b].uuid@,
        0 <= i < s.len(),
        s[i].uuid@ != key,
    ensures
        content_index_of(s.remove(i), key) == -1 <==> content_index_of(s, key) == -1,
{
    lemma_content_index_of(s, key);
    lemma_content_index_of(s.remove(i), key);
    assert(forall|a: int| 0 <= a < s.len() - 1
        ==> s.remove(i)[a] == (if a < i { s[a] } else { s[a + 1] }));
    if content_index_of(s, key) != -1 {
        let w = content_index_of(s, key);
        if w < i {
            assert(s.remove(i)[w].uuid@ == key);
        } else {
            assert(w != i);
            assert(s.remove(i)[w - 1].uuid@ == key);
        }
    }
}

/// Replace the content row carrying `old_uuid` with `row`; the row's own
/// identifier may change, provided it stays unique.
fn replace_content_by_uuid(store: &mut MediaStore, old_uuid: &str, row: Content) -> (r: Result<
    usize,
    RepoError,
>)
    requires
        old(store).inv(),
        ({
            let ci = content_index_of(old(store).contents@, old_uuid@);
            ci != -1 && (row.uuid@ == old_uuid@
                || content_index_of(old(store).contents@.remove(ci), row.uuid@) == -1)
        }),
    ensures
        final(store).inv(),
        final(store).fs == old(store).fs,
        final(store).project_dir == old(store).project_dir,
        final(store).albums@ == old(store).albums@,
        final(store).episodes@ == old(store).episodes@,
        final(store).categories@ == old(store).categories@,
        r is Ok,
        final(store).contents@ == old(store).contents@.update(
            content_index_of(old(store).contents@, old_uuid@),
            content_with_id(row, old(store).contents@[content_index_of(old(store).contents@,
                old_uuid@)].id)),
{
    proof {
        lemma_content_index_of(store.contents@, old_uuid@);
    }
    let mut i: usize = 0;
    while i < store.contents.len()
        invariant
            old(store).inv(),
            i <= store.contents@.len(),
            store == old(store),
            content_index_of(old(store).contents@, old_uuid@) != -1,
            row.uuid@ == old_uuid@ || content_index_of(old(store).contents@.remove(
                content_index_of(old(store).contents@, old_uuid@)), row.uuid@) == -1,
            forall|j: int| 0 <= j < i ==> store.contents@[j].uuid@ != old_uuid@,
        decreases store.contents@.len() - i,
    {
        if crate::text::str_eq(store.contents[i].uuid.as_str(), old_uuid) {
            proof {
                lemma_content_first(store.contents@, i as int, old_uuid@);
            }
            let kept_id = store.contents[i].id;
            let row = Content {
                id: kept_id,
                episode_id: row.episode_id,
                uuid: row.uuid,
                index_no: row.index_no,
                url: row.url,
                ads_url: row.ads_url,
                content_type: row.content_type,
                width: row.width,
                height: row.height,
                bytes: row.bytes,
                broken_at: row.broken_at,
                created_at: row.created_at,
                updated_at: row.updated_at,
            };
            let ghost pre = store.contents@;
            store.contents.set(i, row);
            proof {
                assert(forall|a: int| 0 <= a < store.contents@.len() && a != i
                    ==> #[trigger] store.contents@[a] == pre[a]);
                lemma_content_index_of(pre.remove(i as int), row.uuid@);
                assert(forall|a: int| 0 <= a < pre.len() - 1
                    ==> pre.remove(i as int)[a] == (if a < i { pre[a] } else { pre[a + 1] }));
                assert(store.contents@[i as int].id == pre[i as int].id);
                assert forall|a: int, b: int| 0 <= a < b < store.contents@.len()
                    implies store.contents@[a].uuid@ != store.contents@[b].uuid@
                        && !(store.contents@[a].id is Some && store.contents@[a].id
                            == store.contents@[b].id) by {
                    assert(pre[a].uuid@ != pre[b].uuid@);
                    assert(!(pre[a].id is Some && pre[a].id == pre[b].id));
                    if row.uuid@ != old_uuid@ {
                        if a == i {
                            assert(pre.remove(i as int)[b - 1] == pre[b]);
                        }
                        if b == i {
                            assert(pre.remove(i as int)[a] == pre[a]);
                        }
                    }
                }
            }
            return Ok(1);
        }
        i += 1;
    }
    proof {
        assert(false);
    }
    Ok(0)
}


} // verus!
