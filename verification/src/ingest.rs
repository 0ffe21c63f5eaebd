//! The multipart ingestion engine.
//!
//! A request's parts arrive in order, each carrying a field name and,
//! for uploads, a client-supplied file name.  File parts are written
//! under a per-request staging directory, their paths accumulated per
//! field name in arrival order without duplicates; scalar parts are
//! decoded as UTF-8 (bad bytes fail the whole ingestion) and coerced by
//! the inferred-type classifier, the last write for a name winning.
//! After the stream is drained the file map is folded into the field map
//! and the result is bound to the request schema; on any failure the
//! staging directory is deleted before returning, so no orphaned staged
//! files survive.

use vstd::prelude::*;
use vstd::map_lib::*;
use crate::common::IngestError;
use crate::fields::{FieldMap, FileMap, FileDataMap, add_path_spec, folded_value};
use crate::value::{ValueModel, infer_spec, infer_value};
use crate::fsmodel::FsModel;
use crate::paths::{is_under, path_join};
use crate::ids::{uuid_like, new_uuid_string};

verus! {

/// The characters the bytes decode to, when they are UTF-8.
pub uninterp spec fn utf8_decode_of(bytes: Seq<u8>) -> Option<Seq<char>>;

/// Relies on `String::from_utf8`: whether bytes are valid UTF-8, and the
/// characters they decode to, depend on the bytes alone.
#[verifier::external_body]
pub fn utf8_decode(bytes: Vec<u8>) -> (r: Option<String>)
    ensures
        r is Some <==> utf8_decode_of(bytes@) is Some,
        r matches Some(s) ==> utf8_decode_of(bytes@) == Some(s@),
{
    String::from_utf8(bytes).ok()
}

/// One multipart part, already drained from the stream: a field name,
/// the client's file name for uploads, and the raw bytes.
pub struct Part {
    pub name: String,
    pub filename: Option<String>,
    pub data: Vec<u8>,
}

/// The mathematical shape of a part.
pub ghost struct PartView {
    pub name: Seq<char>,
    pub filename: Option<Seq<char>>,
    pub data: Seq<u8>,
}

impl View for Part {
    type V = PartView;

    open spec fn view(&self) -> PartView {
        PartView {
            name: self.name@,
            filename: match self.filename {
                Some(f) => Some(f@),
                None => None,
            },
            data: self.data@,
        }
    }
}

/// The per-request staging directory.
pub open spec fn staging_dir_spec(project: Seq<char>, request_id: Seq<char>) -> Seq<char> {
    project + seq!['/'] + "tmp"@ + seq!['/'] + request_id
}

/// Where one uploaded file is staged.
pub open spec fn staged_path_spec(staging: Seq<char>, fid: Seq<char>, fname: Seq<char>) -> Seq<
    char,
> {
    staging + seq!['/'] + fid + seq!['/'] + fname
}

/// The ingestion state after some prefix of the parts.
pub ghost struct IngestState {
    pub fields: Map<Seq<char>, ValueModel>,
    pub files: Map<Seq<char>, Seq<Seq<char>>>,
    pub fsm: Map<Seq<char>, Seq<u8>>,
    pub failed: bool,
}

/// What one part does to the ingestion state.
pub open spec fn ingest_step(
    st: IngestState,
    p: PartView,
    fid: Seq<char>,
    staging: Seq<char>,
) -> IngestState {
    if st.failed {
        st
    } else {
        match p.filename {
            Some(fname) => {
                let path = staged_path_spec(staging, fid, fname);
                IngestState {
                    fields: st.fields,
                    files: add_path_spec(st.files, p.name, path),
                    fsm: st.fsm.insert(path, p.data),
                    failed: false,
                }
            },
            None => match utf8_decode_of(p.data) {
                Some(text) => IngestState {
                    fields: st.fields.insert(p.name, infer_spec(text)),
                    files: st.files,
                    fsm: st.fsm,
                    failed: false,
                },
                None => IngestState { fields: st.fields, files: st.files, fsm: st.fsm, failed: true },
            },
        }
    }
}

/// The ingestion state after the first `n` parts.
pub open spec fn ingest_run(
    parts: Seq<PartView>,
    fids: Seq<Seq<char>>,
    staging: Seq<char>,
    init_fsm: Map<Seq<char>, Seq<u8>>,
    n: int,
) -> IngestState
    decreases n,
{
    if n <= 0 {
        IngestState {
            fields: Map::empty(),
            files: Map::empty(),
            fsm: init_fsm,
            failed: false,
        }
    } else {
        ingest_step(ingest_run(parts, fids, staging, init_fsm, n - 1), parts[n - 1], fids[n - 1],
            staging)
    }
}

/// The views of the parts.
pub open spec fn part_views(v: Seq<Part>) -> Seq<PartView> {
    v.map_values(|p: Part| p@)
}

/// A failure never clears.
pub proof fn lemma_failed_sticky(
    parts: Seq<PartView>,
    fids: Seq<Seq<char>>,
    staging: Seq<char>,
    init_fsm: Map<Seq<char>, Seq<u8>>,
    n: int,
    m: int,
)
    requires
        0 <= n <= m,
        ingest_run(parts, fids, staging, init_fsm, n).failed,
    ensures
        ingest_run(parts, fids, staging, init_fsm, m).failed,
    decreases m - n,
{
    if n < m {
        lemma_failed_sticky(parts, fids, staging, init_fsm, n, m - 1);
    }
}

/// Whether a scalar part's bytes fail to decode as UTF-8.
pub open spec fn scalar_part_fails(p: PartView) -> bool {
    p.filename is None && utf8_decode_of(p.data) is None
}

/// Every scalar part's bytes are valid UTF-8: the condition under which
/// ingestion owes success.
pub open spec fn all_scalar_parts_decode(parts: Seq<PartView>) -> bool {
    forall|i: int| 0 <= i < parts.len() ==> !scalar_part_fails(#[trigger] parts[i])
}

/// Ingestion fails exactly when some scalar part's bytes are not UTF-8;
/// which identifiers were drawn never decides.
pub proof fn lemma_run_fails_iff(
    parts: Seq<PartView>,
    fids: Seq<Seq<char>>,
    staging: Seq<char>,
    init_fsm: Map<Seq<char>, Seq<u8>>,
    n: int,
)
    requires
        0 <= n <= parts.len(),
    ensures
        ingest_run(parts, fids, staging, init_fsm, n).failed
            <==> exists|i: int| 0 <= i < n && scalar_part_fails(#[trigger] parts[i]),
    decreases n,
{
    if n > 0 {
        lemma_run_fails_iff(parts, fids, staging, init_fsm, n - 1);
        if ingest_run(parts, fids, staging, init_fsm, n).failed {
            if ingest_run(parts, fids, staging, init_fsm, n - 1).failed {
                let i = choose|i: int| 0 <= i < n - 1 && scalar_part_fails(#[trigger] parts[i]);
                assert(0 <= i < n && scalar_part_fails(parts[i]));
            } else {
                assert(scalar_part_fails(parts[n - 1]));
            }
        }
        if exists|i: int| 0 <= i < n && scalar_part_fails(#[trigger] parts[i]) {
            let i = choose|i: int| 0 <= i < n && scalar_part_fails(#[trigger] parts[i]);
            if i < n - 1 {
                assert(exists|j: int| 0 <= j < n - 1 && scalar_part_fails(#[trigger] parts[j]));
            }
        }
    }
}

/// A staged path lies under the staging directory.
pub proof fn lemma_staged_under(staging: Seq<char>, fid: Seq<char>, fname: Seq<char>)
    requires
        fid.len() > 0,
    ensures
        is_under(staged_path_spec(staging, fid, fname), staging),
{
    let p = staged_path_spec(staging, fid, fname);
    assert(p.subrange(0, staging.len() as int) =~= staging);
    assert(p[staging.len() as int] == '/');
}

/// Ingestion writes only under the staging directory: every path outside
/// it keeps exactly the bytes it had.
pub proof fn lemma_run_outside(
    parts: Seq<PartView>,
    fids: Seq<Seq<char>>,
    staging: Seq<char>,
    init_fsm: Map<Seq<char>, Seq<u8>>,
    n: int,
)
    requires
        0 <= n <= parts.len(),
        fids.len() >= parts.len(),
        forall|i: int| 0 <= i < n ==> #[trigger] fids[i].len() > 0,
    ensures
        ingest_run(parts, fids, staging, init_fsm, n).fsm.filter_keys(
            |p: Seq<char>| !is_under(p, staging))
            =~= init_fsm.filter_keys(|p: Seq<char>| !is_under(p, staging)),
    decreases n,
{
    if n > 0 {
        lemma_run_outside(parts, fids, staging, init_fsm, n - 1);
        let st = ingest_run(parts, fids, staging, init_fsm, n - 1);
        match parts[n - 1].filename {
            Some(fname) => {
                lemma_staged_under(staging, fids[n - 1], fname);
            },
            None => {},
        }
    }
}

/// How a successful ingestion leaves the world: the staging directory,
/// the merged field map (file fields folded in last), and the filesystem
/// holding exactly the staged writes on top of what was there.
pub open spec fn ingest_ok_post(
    init_fsm: Map<Seq<char>, Seq<u8>>,
    fin_fsm: Map<Seq<char>, Seq<u8>>,
    parts: Seq<PartView>,
    project: Seq<char>,
    request_id: Seq<char>,
    fids: Seq<Seq<char>>,
    merged: Map<Seq<char>, ValueModel>,
    tmp_path: Seq<char>,
) -> bool {
    let staging = staging_dir_spec(project, request_id);
    let fin = ingest_run(parts, fids, staging, init_fsm, parts.len() as int);
    &&& !fin.failed
    &&& tmp_path == staging
    &&& merged == fin.fields.union_prefer_right(fin.files.map_entries(
        |k: Seq<char>, ps: Seq<Seq<char>>| folded_value(k, ps)))
    &&& fin_fsm == fin.fsm
}

/// Drain the parts into a staging area keyed by `request_id`, one fresh
/// identifier per part: file parts are written under the staging
/// directory and their paths accumulated per field name; scalar parts are
/// decoded and coerced.  Invalid UTF-8 fails the ingestion, and the
/// staging directory is deleted before the error returns: no staged file
/// survives a failure, and the directory itself is gone.
pub fn parse_payload_data_with_ids(
    fs: &mut FsModel,
    project_dir: &str,
    parts: Vec<Part>,
    request_id: &str,
    file_ids: &Vec<String>,
) -> (r: Result<(FieldMap, String), IngestError>)
    requires
        old(fs).inv(),
        file_ids@.len() == parts@.len(),
        uuid_like(request_id@),
        forall|i: int| 0 <= i < file_ids@.len() ==> uuid_like(#[trigger] file_ids@[i]@),
    ensures
        final(fs).inv(),
        ({
            let staging = staging_dir_spec(project_dir@, request_id@);
            let fin = ingest_run(part_views(parts@), crate::text::str_views(file_ids@), staging,
                old(fs)@, parts@.len() as int);
            &&& (r is Ok <==> !fin.failed)
            &&& (r matches Ok(p) ==> p.0.inv() && ingest_ok_post(old(fs)@, final(fs)@,
                part_views(parts@), project_dir@, request_id@,
                crate::text::str_views(file_ids@), p.0@, p.1@))
            &&& (r is Ok ==> final(fs)@.filter_keys(|p: Seq<char>| !is_under(p, staging))
                == old(fs)@.filter_keys(|p: Seq<char>| !is_under(p, staging)))
            &&& (r matches Err(e) ==> {
                &&& e == IngestError::InvalidUtf8
                &&& final(fs)@ == old(fs)@.filter_keys(|p: Seq<char>| !is_under(p, staging))
                &&& !final(fs).dir_exists_spec(staging)
            })
        }),
{
    let ghost staging = staging_dir_spec(project_dir@, request_id@);
    let ghost pviews = part_views(parts@);
    let ghost fids = crate::text::str_views(file_ids@);
    let tmp_root = path_join(project_dir, "tmp");
    let tmp_path = path_join(tmp_root.as_str(), request_id);
    proof {
        assert(tmp_path@ == staging);
    }
    let mut form_data_map = FieldMap::new();
    let mut file_data_map = FileMap::new();
    fs.create_directory_if_not_exists(tmp_path.as_str());
    let n = parts.len();
    let mut i: usize = 0;
    while i < n
        invariant
            n == parts@.len(),
            file_ids@.len() == parts@.len(),
            i <= n,
            fs.inv(),
            form_data_map.inv(),
            file_data_map.inv(),
            staging == staging_dir_spec(project_dir@, request_id@),
            tmp_path@ == staging,
            pviews == part_views(parts@),
            fids == crate::text::str_views(file_ids@),
            forall|j: int| 0 <= j < file_ids@.len() ==> uuid_like(#[trigger] file_ids@[j]@),
            !ingest_run(pviews, fids, staging, old(fs)@, i as int).failed,
            form_data_map@ == ingest_run(pviews, fids, staging, old(fs)@, i as int).fields,
            file_data_map@ == ingest_run(pviews, fids, staging, old(fs)@, i as int).files,
            fs@ == ingest_run(pviews, fids, staging, old(fs)@, i as int).fsm,
        decreases n - i,
    {
        let ghost st = ingest_run(pviews, fids, staging, old(fs)@, i as int);
        let name = parts[i].name.clone();
        let data = clone_bytes(&parts[i].data);
        proof {
            assert(pviews[i as int] == parts@[i as int]@);
            assert(fids[i as int] == file_ids@[i as int]@);
        }
        let has_file = match &parts[i].filename {
            Some(_) => true,
            None => false,
        };
        if has_file {
            let filename = match &parts[i].filename {
                Some(f) => f.clone(),
                None => String::new(),
            };
            let file_dir = path_join(tmp_path.as_str(), file_ids[i].as_str());
            let filepath = path_join(file_dir.as_str(), filename.as_str());
            proof {
                assert(filepath@ =~= staged_path_spec(staging, fids[i as int],
                    pviews[i as int].filename->0));
            }
            fs.save_file_to_directory(filepath.as_str(), data);
            file_data_map.add_file_path(name, filepath);
        } else {
            let value = match utf8_decode(data) {
                Some(v) => v,
                None => {
                    proof {
                        lemma_failed_sticky(pviews, fids, staging, old(fs)@, i + 1,
                            parts@.len() as int);
                        lemma_run_outside(pviews, fids, staging, old(fs)@, i as int);
                    }
                    fs.delete_directory_if_exists(tmp_path.as_str());
                    proof {
                        assert(fs@ =~= old(fs)@.filter_keys(
                            |p: Seq<char>| !is_under(p, staging)));
                    }
                    return Err(IngestError::InvalidUtf8);
                },
            };
            let json_value = infer_value(value.as_str());
            form_data_map.insert(name, json_value);
        }
        i += 1;
    }
    file_data_map.fold_into(&mut form_data_map);
    proof {
        lemma_run_outside(pviews, fids, staging, old(fs)@, parts@.len() as int);
    }
    Ok((form_data_map, tmp_path))
}

/// A copy of the bytes.
pub fn clone_bytes(v: &Vec<u8>) -> (r: Vec<u8>)
    ensures
        r@ == v@,
{
    let mut r: Vec<u8> = Vec::new();
    let mut i: usize = 0;
    while i < v.len()
        invariant
            i <= v@.len(),
            r@ == v@.take(i as int),
        decreases v@.len() - i,
    {
        r.push(v[i]);
        proof {
            assert(r@ =~= v@.take(i + 1));
        }
        i += 1;
    }
    proof {
        assert(v@.take(v@.len() as int) =~= v@);
    }
    r
}

/// Drain the parts into a freshly named staging area: a fresh request
/// identifier names the directory and each file part gets its own fresh
/// identifier.  Whatever identifiers came back, a success leaves the
/// merged field map and the staging path; a failure leaves no new file
/// behind.
pub fn parse_payload_data(fs: &mut FsModel, project_dir: &str, parts: Vec<Part>) -> (r: Result<
    (FieldMap, String),
    IngestError,
>)
    requires
        old(fs).inv(),
    ensures
        final(fs).inv(),
        r is Ok <==> all_scalar_parts_decode(part_views(parts@)),
        r matches Ok(p) ==> p.0.inv() && exists|rid: Seq<char>, fids: Seq<Seq<char>>|
            #![auto]
            {
                &&& uuid_like(rid)
                &&& fids.len() == parts@.len()
                &&& ingest_ok_post(old(fs)@, final(fs)@, part_views(parts@), project_dir@, rid,
                    fids, p.0@, p.1@)
            },
        r matches Err(e) ==> e == IngestError::InvalidUtf8
            && exists|rid: Seq<char>|
            #![auto]
            {
                &&& uuid_like(rid)
                &&& final(fs)@ == old(fs)@.filter_keys(
                    |p: Seq<char>| !is_under(p, staging_dir_spec(project_dir@, rid)))
                &&& !final(fs).dir_exists_spec(staging_dir_spec(project_dir@, rid))
            },
        r is Err ==> forall|p: Seq<char>| final(fs)@.dom().contains(p)
            ==> old(fs)@.dom().contains(p) && final(fs)@[p] == old(fs)@[p],
{
    let tmp_uuid = new_uuid_string();
    let mut file_ids: Vec<String> = Vec::new();
    let mut k: usize = 0;
    while k < parts.len()
        invariant
            k <= parts@.len(),
            file_ids@.len() == k,
            forall|j: int| 0 <= j < k ==> uuid_like(#[trigger] file_ids@[j]@),
        decreases parts@.len() - k,
    {
        file_ids.push(new_uuid_string());
        k += 1;
    }
    let ghost rid = tmp_uuid@;
    let ghost fids = crate::text::str_views(file_ids@);
    let ghost pv = part_views(parts@);
    let r = parse_payload_data_with_ids(fs, project_dir, parts, tmp_uuid.as_str(), &file_ids);
    proof {
        let staging = staging_dir_spec(project_dir@, rid);
        lemma_run_fails_iff(pv, fids, staging, old(fs)@, pv.len() as int);
        if r is Err {
            assert forall|p: Seq<char>| fs@.dom().contains(p)
                implies old(fs)@.dom().contains(p) && fs@[p] == old(fs)@[p] by {
                assert(fs@ == old(fs)@.filter_keys(|q: Seq<char>| !is_under(q, staging)));
            }
        }
    }
    r
}

/// Ingest the parts and bind them to the create-album schema; a bind
/// failure deletes the staging directory before the error returns, so it
/// does not exist afterwards.
pub fn ingest_create_album(
    fs: &mut FsModel,
    project_dir: &str,
    parts: Vec<Part>,
    request_id: &str,
    file_ids: &Vec<String>,
) -> (r: Result<(crate::album::CreateAlbumRequest, String), IngestError>)
    requires
        old(fs).inv(),
        file_ids@.len() == parts@.len(),
        uuid_like(request_id@),
        forall|i: int| 0 <= i < file_ids@.len() ==> uuid_like(#[trigger] file_ids@[i]@),
    ensures
        final(fs).inv(),
        ({
            let staging = staging_dir_spec(project_dir@, request_id@);
            let fin = ingest_run(part_views(parts@), crate::text::str_views(file_ids@), staging,
                old(fs)@, parts@.len() as int);
            let merged = fin.fields.union_prefer_right(fin.files.map_entries(
                |k: Seq<char>, ps: Seq<Seq<char>>| folded_value(k, ps)));
            &&& (r is Ok <==> !fin.failed && crate::album::create_album_binds(merged))
            &&& (r matches Ok(p) ==> crate::album::create_album_bound(merged, p.0)
                && p.1@ == staging && final(fs)@ == fin.fsm)
            &&& (r matches Err(e) ==> {
                &&& (fin.failed <==> e == IngestError::InvalidUtf8)
                &&& (!fin.failed <==> e == IngestError::Bind)
                &&& final(fs)@ == old(fs)@.filter_keys(|p: Seq<char>| !is_under(p, staging))
                &&& !final(fs).dir_exists_spec(staging)
            })
        }),
{
    let ghost staging = staging_dir_spec(project_dir@, request_id@);
    let (payload_data, tmp_path) = match parse_payload_data_with_ids(fs, project_dir, parts,
        request_id, file_ids) {
        Ok(p) => p,
        Err(e) => {
            return Err(e);
        },
    };
    match crate::album::CreateAlbumRequest::from_payload_data(&payload_data) {
        Ok(req) => Ok((req, tmp_path)),
        Err(e) => {
            proof {
                lemma_run_outside(part_views(parts@), crate::text::str_views(file_ids@),
                    staging, old(fs)@, parts@.len() as int);
            }
            fs.delete_directory_if_exists(tmp_path.as_str());
            proof {
                assert(fs@ =~= old(fs)@.filter_keys(|p: Seq<char>| !is_under(p, staging)));
            }
            Err(e)
        },
    }
}

/// Ingest the parts and bind them to the add-contents schema; a bind
/// failure deletes the staging directory before the error returns.
pub fn ingest_add_contents(
    fs: &mut FsModel,
    project_dir: &str,
    parts: Vec<Part>,
    request_id: &str,
    file_ids: &Vec<String>,
) -> (r: Result<(crate::content::AddEpisodeContentsRequest, String), IngestError>)
    requires
        old(fs).inv(),
        file_ids@.len() == parts@.len(),
        uuid_like(request_id@),
        forall|i: int| 0 <= i < file_ids@.len() ==> uuid_like(#[trigger] file_ids@[i]@),
    ensures
        final(fs).inv(),
        ({
            let staging = staging_dir_spec(project_dir@, request_id@);
            let fin = ingest_run(part_views(parts@), crate::text::str_views(file_ids@), staging,
                old(fs)@, parts@.len() as int);
            let merged = fin.fields.union_prefer_right(fin.files.map_entries(
                |k: Seq<char>, ps: Seq<Seq<char>>| folded_value(k, ps)));
            &&& (r is Ok <==> !fin.failed && crate::content::add_contents_binds(merged))
            &&& (r matches Ok(p) ==> p.1@ == staging && final(fs)@ == fin.fsm
                && crate::value::i32_opt_of(merged["episode_id"@]) == Some(p.0.episode_id)
                && crate::text::str_views(p.0.files@) == crate::fields::paths_of_value(
                    merged["files"@]))
            &&& (r matches Err(e) ==> {
                &&& (fin.failed <==> e == IngestError::InvalidUtf8)
                &&& (!fin.failed <==> e == IngestError::Bind)
                &&& final(fs)@ == old(fs)@.filter_keys(|p: Seq<char>| !is_under(p, staging))
                &&& !final(fs).dir_exists_spec(staging)
            })
        }),
{
    let ghost staging = staging_dir_spec(project_dir@, request_id@);
    let (payload_data, tmp_path) = match parse_payload_data_with_ids(fs, project_dir, parts,
        request_id, file_ids) {
        Ok(p) => p,
        Err(e) => {
            return Err(e);
        },
    };
    match crate::content::AddEpisodeContentsRequest::from_payload_data(&payload_data) {
        Ok(req) => Ok((req, tmp_path)),
        Err(e) => {
            proof {
                lemma_run_outside(part_views(parts@), crate::text::str_views(file_ids@),
                    staging, old(fs)@, parts@.len() as int);
            }
            fs.delete_directory_if_exists(tmp_path.as_str());
            proof {
                assert(fs@ =~= old(fs)@.filter_keys(|p: Seq<char>| !is_under(p, staging)));
            }
            Err(e)
        },
    }
}


} // verus!
