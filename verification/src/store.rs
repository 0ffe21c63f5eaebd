//! The media store: the modelled filesystem plus the row tables.
//!
//! The row store is the single source of truth for entity existence; the
//! filesystem holds the bytes the rows point at.  Every entity service
//! works against this store, and the row operations here are the model of
//! the repository layer: insert, select by key, update by key, delete by
//! key, with "not found" and "constraint violated" as the two failure
//! kinds.

use vstd::prelude::*;
use crate::fsmodel::FsModel;
use crate::paths::dir_prefix_of;
use crate::common::RepoError;
use crate::album::Album;
use crate::episode::Episode;
use crate::content::Content;
use crate::category::Category;

verus! {

/// The whole world the services act on.
pub struct MediaStore {
    pub fs: FsModel,
    /// Absolute directory the relative row paths hang under.
    pub project_dir: String,
    pub albums: Vec<Album>,
    pub episodes: Vec<Episode>,
    pub contents: Vec<Content>,
    pub categories: Vec<Category>,
    pub next_album_id: i32,
    pub next_episode_id: i32,
    pub next_content_id: i32,
    pub next_category_id: i32,
}


/// One pending relocation of a staged file to its destination.
pub struct FileMove {
    pub src: String,
    pub dest: String,
}

/// What one best-effort move-and-replace does to the file map.
pub open spec fn apply_move(
    m: Map<Seq<char>, Seq<u8>>,
    src: Seq<char>,
    dest: Seq<char>,
) -> Map<Seq<char>, Seq<u8>> {
    if m.dom().contains(src) && src != dest {
        m.remove(src).insert(dest, m[src])
    } else if m.dom().contains(src) {
        m.remove(src)
    } else {
        m.remove(dest)
    }
}

/// The source and destination of each move, as character sequences.
pub open spec fn moves_views(s: Seq<FileMove>) -> Seq<(Seq<char>, Seq<char>)> {
    s.map_values(|mv: FileMove| (mv.src@, mv.dest@))
}

/// The file map after a sequence of moves, performed in order.
pub open spec fn apply_moves(
    m: Map<Seq<char>, Seq<u8>>,
    moves: Seq<(Seq<char>, Seq<char>)>,
) -> Map<Seq<char>, Seq<u8>>
    decreases moves.len(),
{
    if moves.len() == 0 {
        m
    } else {
        apply_move(apply_moves(m, moves.drop_last()), moves.last().0, moves.last().1)
    }
}

/// The directory set after a sequence of moves: each move records its
/// destination's parent directory.
pub open spec fn apply_moves_dirs(
    ds: Set<Seq<char>>,
    moves: Seq<(Seq<char>, Seq<char>)>,
) -> Set<Seq<char>>
    decreases moves.len(),
{
    if moves.len() == 0 {
        ds
    } else {
        match dir_prefix_of(moves.last().1) {
            Some(d) => apply_moves_dirs(ds, moves.drop_last()).insert(d),
            None => apply_moves_dirs(ds, moves.drop_last()),
        }
    }
}

/// Whether every move finds its source present when its turn comes.
pub open spec fn moves_all_present(
    m: Map<Seq<char>, Seq<u8>>,
    moves: Seq<(Seq<char>, Seq<char>)>,
) -> bool
    decreases moves.len(),
{
    if moves.len() == 0 {
        true
    } else {
        moves_all_present(m, moves.drop_last())
            && apply_moves(m, moves.drop_last()).dom().contains(moves.last().0)
    }
}

/// Perform the moves in order, each one best-effort; report whether any
/// source was missing when its turn came — the partial-commit signal the
/// caller must surface, with whatever was already moved left in place.
pub fn commit_moves(fs: &mut FsModel, moves: &Vec<FileMove>) -> (lost: bool)
    requires
        old(fs).inv(),
    ensures
        final(fs).inv(),
        final(fs)@ == apply_moves(old(fs)@, moves_views(moves@)),
        final(fs).dirs_view() == apply_moves_dirs(old(fs).dirs_view(), moves_views(moves@)),
        lost == !moves_all_present(old(fs)@, moves_views(moves@)),
{
    let mut lost = false;
    let mut i: usize = 0;
    while i < moves.len()
        invariant
            fs.inv(),
            i <= moves@.len(),
            fs@ == apply_moves(old(fs)@, moves_views(moves@.take(i as int))),
            fs.dirs_view() == apply_moves_dirs(
                old(fs).dirs_view(),
                moves_views(moves@.take(i as int)),
            ),
            lost == !moves_all_present(old(fs)@, moves_views(moves@.take(i as int))),
        decreases moves@.len() - i,
    {
        let present = fs.exists_file(moves[i].src.as_str());
        fs.move_file_and_replace(moves[i].src.as_str(), moves[i].dest.as_str());
        if !present {
            lost = true;
        }
        proof {
            assert(moves_views(moves@.take(i + 1)).drop_last()
                =~= moves_views(moves@.take(i as int)));
            assert(moves_views(moves@.take(i + 1)).last() == (moves@[i as int].src@,
                moves@[i as int].dest@));
        }
        i += 1;
    }
    proof {
        assert(moves_views(moves@.take(moves@.len() as int)) =~= moves_views(moves@));
    }
    lost
}

/// The file map after deleting each key in turn.
pub open spec fn remove_keys_seq(m: Map<Seq<char>, Seq<u8>>, keys: Seq<Seq<char>>) -> Map<
    Seq<char>,
    Seq<u8>,
>
    decreases keys.len(),
{
    if keys.len() == 0 {
        m
    } else {
        remove_keys_seq(m, keys.drop_last()).remove(keys.last())
    }
}

/// The first index whose album carries `uuid`, or -1.
pub open spec fn album_index_of(s: Seq<Album>, uuid: Seq<char>) -> int
    decreases s.len(),
{
    if s.len() == 0 {
        -1
    } else if s[0].uuid@ == uuid {
        0
    } else {
        let rest = album_index_of(s.drop_first(), uuid);
        if rest == -1 {
            -1
        } else {
            rest + 1
        }
    }
}

/// The first index whose album carries id `id`, or -1.
pub open spec fn album_id_index_of(s: Seq<Album>, id: int) -> int
    decreases s.len(),
{
    if s.len() == 0 {
        -1
    } else if s[0].id == id {
        0
    } else {
        let rest = album_id_index_of(s.drop_first(), id);
        if rest == -1 {
            -1
        } else {
            rest + 1
        }
    }
}

/// The first index whose episode carries `uuid`, or -1.
pub open spec fn episode_index_of(s: Seq<Episode>, uuid: Seq<char>) -> int
    decreases s.len(),
{
    if s.len() == 0 {
        -1
    } else if s[0].uuid@ == uuid {
        0
    } else {
        let rest = episode_index_of(s.drop_first(), uuid);
        if rest == -1 {
            -1
        } else {
            rest + 1
        }
    }
}

/// The first index whose episode carries id `id`, or -1.
pub open spec fn episode_id_index_of(s: Seq<Episode>, id: int) -> int
    decreases s.len(),
{
    if s.len() == 0 {
        -1
    } else if s[0].id matches Some(v) && v == id {
        0
    } else {
        let rest = episode_id_index_of(s.drop_first(), id);
        if rest == -1 {
            -1
        } else {
            rest + 1
        }
    }
}

/// The first index whose content carries `uuid`, or -1.
pub open spec fn content_index_of(s: Seq<Content>, uuid: Seq<char>) -> int
    decreases s.len(),
{
    if s.len() == 0 {
        -1
    } else if s[0].uuid@ == uuid {
        0
    } else {
        let rest = content_index_of(s.drop_first(), uuid);
        if rest == -1 {
            -1
        } else {
            rest + 1
        }
    }
}

/// The first index whose category carries id `id`, or -1.
pub open spec fn category_id_index_of(s: Seq<Category>, id: int) -> int
    decreases s.len(),
{
    if s.len() == 0 {
        -1
    } else if s[0].id matches Some(v) && v == id {
        0
    } else {
        let rest = category_id_index_of(s.drop_first(), id);
        if rest == -1 {
            -1
        } else {
            rest + 1
        }
    }
}

/// What an index-of spec fn returns: -1 or a position bearing the key.
pub proof fn lemma_album_index_of(s: Seq<Album>, uuid: Seq<char>)
    ensures
        album_index_of(s, uuid) == -1
            ==> forall|i: int| 0 <= i < s.len() ==> s[i].uuid@ != uuid,
        album_index_of(s, uuid) != -1
            ==> 0 <= album_index_of(s, uuid) < s.len()
                && s[album_index_of(s, uuid)].uuid@ == uuid,
    decreases s.len(),
{
    if s.len() > 0 && s[0].uuid@ != uuid {
        lemma_album_index_of(s.drop_first(), uuid);
        if album_index_of(s, uuid) == -1 {
            assert forall|i: int| 0 <= i < s.len() implies s[i].uuid@ != uuid by {
                if i > 0 {
                    assert(s.drop_first()[i - 1] == s[i]);
                }
            }
        } else {
            assert(s.drop_first()[album_index_of(s, uuid) - 1] == s[album_index_of(s, uuid)]);
        }
    }
}

pub proof fn lemma_album_id_index_of(s: Seq<Album>, id: int)
    ensures
        album_id_index_of(s, id) == -1
            ==> forall|i: int| 0 <= i < s.len() ==> s[i].id != id,
        album_id_index_of(s, id) != -1
            ==> 0 <= album_id_index_of(s, id) < s.len()
                && s[album_id_index_of(s, id)].id == id,
    decreases s.len(),
{
    if s.len() > 0 && s[0].id != id {
        lemma_album_id_index_of(s.drop_first(), id);
        if album_id_index_of(s, id) == -1 {
            assert forall|i: int| 0 <= i < s.len() implies s[i].id != id by {
                if i > 0 {
                    assert(s.drop_first()[i - 1] == s[i]);
                }
            }
        } else {
            assert(s.drop_first()[album_id_index_of(s, id) - 1] == s[album_id_index_of(s, id)]);
        }
    }
}

pub proof fn lemma_episode_index_of(s: Seq<Episode>, uuid: Seq<char>)
    ensures
        episode_index_of(s, uuid) == -1
            ==> forall|i: int| 0 <= i < s.len() ==> s[i].uuid@ != uuid,
        episode_index_of(s, uuid) != -1
            ==> 0 <= episode_index_of(s, uuid) < s.len()
                && s[episode_index_of(s, uuid)].uuid@ == uuid,
    decreases s.len(),
{
    if s.len() > 0 && s[0].uuid@ != uuid {
        lemma_episode_index_of(s.drop_first(), uuid);
        if episode_index_of(s, uuid) == -1 {
            assert forall|i: int| 0 <= i < s.len() implies s[i].uuid@ != uuid by {
                if i > 0 {
                    assert(s.drop_first()[i - 1] == s[i]);
                }
            }
        } else {
            assert(s.drop_first()[episode_index_of(s, uuid) - 1] == s[episode_index_of(s, uuid)]);
        }
    }
}

pub proof fn lemma_episode_id_index_of(s: Seq<Episode>, id: int)
    ensures
        episode_id_index_of(s, id) == -1
            ==> forall|i: int| 0 <= i < s.len() ==> !(#[trigger] s[i].id matches Some(v) && v == id),
        episode_id_index_of(s, id) != -1
            ==> 0 <= episode_id_index_of(s, id) < s.len()
                && (s[episode_id_index_of(s, id)].id matches Some(v) && v == id),
    decreases s.len(),
{
    if s.len() > 0 && !(s[0].id matches Some(v) && v == id) {
        lemma_episode_id_index_of(s.drop_first(), id);
        if episode_id_index_of(s, id) == -1 {
            assert forall|i: int| 0 <= i < s.len() implies !(#[trigger] s[i].id matches Some(
                v,
            ) && v == id) by {
                if i > 0 {
                    assert(s.drop_first()[i - 1] == s[i]);
                }
            }
        } else {
            assert(s.drop_first()[episode_id_index_of(s, id) - 1]
                == s[episode_id_index_of(s, id)]);
        }
    }
}

pub proof fn lemma_content_index_of(s: Seq<Content>, uuid: Seq<char>)
    ensures
        content_index_of(s, uuid) == -1
            ==> forall|i: int| 0 <= i < s.len() ==> s[i].uuid@ != uuid,
        content_index_of(s, uuid) != -1
            ==> 0 <= content_index_of(s, uuid) < s.len()
                && s[content_index_of(s, uuid)].uuid@ == uuid,
    decreases s.len(),
{
    if s.len() > 0 && s[0].uuid@ != uuid {
        lemma_content_index_of(s.drop_first(), uuid);
        if content_index_of(s, uuid) == -1 {
            assert forall|i: int| 0 <= i < s.len() implies s[i].uuid@ != uuid by {
                if i > 0 {
                    assert(s.drop_first()[i - 1] == s[i]);
                }
            }
        } else {
            assert(s.drop_first()[content_index_of(s, uuid) - 1] == s[content_index_of(s, uuid)]);
        }
    }
}

pub proof fn lemma_category_id_index_of(s: Seq<Category>, id: int)
    ensures
        category_id_index_of(s, id) == -1
            ==> forall|i: int| 0 <= i < s.len() ==> !(#[trigger] s[i].id matches Some(v) && v == id),
        category_id_index_of(s, id) != -1
            ==> 0 <= category_id_index_of(s, id) < s.len()
                && (s[category_id_index_of(s, id)].id matches Some(v) && v == id),
    decreases s.len(),
{
    if s.len() > 0 && !(s[0].id matches Some(v) && v == id) {
        lemma_category_id_index_of(s.drop_first(), id);
        if category_id_index_of(s, id) == -1 {
            assert forall|i: int| 0 <= i < s.len() implies !(#[trigger] s[i].id matches Some(
                v,
            ) && v == id) by {
                if i > 0 {
                    assert(s.drop_first()[i - 1] == s[i]);
                }
            }
        } else {
            assert(s.drop_first()[category_id_index_of(s, id) - 1]
                == s[category_id_index_of(s, id)]);
        }
    }
}

impl MediaStore {
    /// The row store's constraints: entity UUIDs and numeric ids are
    /// unique per table, and every assigned id lies below the table's
    /// counter, so freshly assigned ids never collide.
    pub open spec fn inv(&self) -> bool {
        &&& self.fs.inv()
        &&& forall|i: int, j: int| 0 <= i < j < self.albums@.len()
            ==> self.albums@[i].uuid@ != self.albums@[j].uuid@
        &&& forall|i: int, j: int| 0 <= i < j < self.episodes@.len()
            ==> self.episodes@[i].uuid@ != self.episodes@[j].uuid@
        &&& forall|i: int, j: int| 0 <= i < j < self.contents@.len()
            ==> self.contents@[i].uuid@ != self.contents@[j].uuid@
        &&& forall|i: int, j: int| 0 <= i < j < self.albums@.len()
            ==> self.albums@[i].id != self.albums@[j].id
        &&& forall|i: int| 0 <= i < self.albums@.len()
            ==> self.albums@[i].id < self.next_album_id
        &&& forall|i: int, j: int| 0 <= i < j < self.episodes@.len()
            ==> !(self.episodes@[i].id is Some && self.episodes@[i].id
                == self.episodes@[j].id)
        &&& forall|i: int| 0 <= i < self.episodes@.len()
            ==> (#[trigger] self.episodes@[i].id matches Some(v) ==> v < self.next_episode_id)
        &&& forall|i: int, j: int| 0 <= i < j < self.contents@.len()
            ==> !(self.contents@[i].id is Some && self.contents@[i].id
                == self.contents@[j].id)
        &&& forall|i: int| 0 <= i < self.contents@.len()
            ==> (#[trigger] self.contents@[i].id matches Some(v) ==> v < self.next_content_id)
        &&& forall|i: int, j: int| 0 <= i < j < self.categories@.len()
            ==> !(self.categories@[i].id is Some && self.categories@[i].id
                == self.categories@[j].id)
        &&& forall|i: int| 0 <= i < self.categories@.len()
            ==> (#[trigger] self.categories@[i].id matches Some(v) ==> v < self.next_category_id)
    }

    /// An empty store over the given project directory.
    pub fn new(project_dir: String) -> (r: MediaStore)
        ensures
            r.inv(),
            r.fs@ =~= Map::<Seq<char>, Seq<u8>>::empty(),
            r.albums@.len() == 0,
            r.episodes@.len() == 0,
            r.contents@.len() == 0,
            r.categories@.len() == 0,
            r.project_dir == project_dir,
    {
        MediaStore {
            fs: FsModel::new(),
            project_dir,
            albums: Vec::new(),
            episodes: Vec::new(),
            contents: Vec::new(),
            categories: Vec::new(),
            next_album_id: 1,
            next_episode_id: 1,
            next_content_id: 1,
            next_category_id: 1,
        }
    }

    /// Find an album row by UUID; `NotFound` when no row matches.
    pub fn get_album_by_uuid(&self, album_uuid: &str) -> (r: Result<&Album, RepoError>)
        ensures
            r is Ok <==> album_index_of(self.albums@, album_uuid@) != -1,
            r matches Ok(a) ==> *a == self.albums@[album_index_of(self.albums@, album_uuid@)],
            r matches Err(e) ==> e == RepoError::NotFound,
    {
        let mut i: usize = 0;
        proof {
            lemma_album_index_of(self.albums@, album_uuid@);
        }
        while i < self.albums.len()
            invariant
                i <= self.albums@.len(),
                forall|j: int| 0 <= j < i ==> self.albums@[j].uuid@ != album_uuid@,
                album_index_of(self.albums@, album_uuid@) == -1
                    ==> forall|j: int| 0 <= j < self.albums@.len()
                        ==> self.albums@[j].uuid@ != album_uuid@,
                album_index_of(self.albums@, album_uuid@) != -1
                    ==> 0 <= album_index_of(self.albums@, album_uuid@) < self.albums@.len()
                        && self.albums@[album_index_of(self.albums@, album_uuid@)].uuid@
                            == album_uuid@,
            decreases self.albums@.len() - i,
        {
            if crate::text::str_eq(self.albums[i].uuid.as_str(), album_uuid) {
                proof {
                    lemma_album_first(self.albums@, i as int, album_uuid@);
                }
                return Ok(&self.albums[i]);
            }
            i += 1;
        }
        Err(RepoError::NotFound)
    }

    /// Find an album row by numeric id.
    pub fn get_album_by_id(&self, album_id: i32) -> (r: Result<&Album, RepoError>)
        ensures
            r is Ok <==> album_id_index_of(self.albums@, album_id as int) != -1,
            r matches Ok(a)
                ==> *a == self.albums@[album_id_index_of(self.albums@, album_id as int)],
            r matches Err(e) ==> e == RepoError::NotFound,
    {
        let mut i: usize = 0;
        proof {
            lemma_album_id_index_of(self.albums@, album_id as int);
        }
        while i < self.albums.len()
            invariant
                i <= self.albums@.len(),
                forall|j: int| 0 <= j < i ==> self.albums@[j].id != album_id,
                album_id_index_of(self.albums@, album_id as int) == -1
                    ==> forall|j: int| 0 <= j < self.albums@.len()
                        ==> self.albums@[j].id != album_id,
                album_id_index_of(self.albums@, album_id as int) != -1
                    ==> 0 <= album_id_index_of(self.albums@, album_id as int)
                            < self.albums@.len()
                        && self.albums@[album_id_index_of(self.albums@, album_id as int)].id
                            == album_id,
            decreases self.albums@.len() - i,
        {
            if self.albums[i].id == album_id {
                proof {
                    lemma_album_id_first(self.albums@, i as int, album_id as int);
                }
                return Ok(&self.albums[i]);
            }
            i += 1;
        }
        Err(RepoError::NotFound)
    }
}

/// When every earlier row misses the key and row `i` carries it, `i` is
/// the first match.
pub proof fn lemma_album_first(s: Seq<Album>, i: int, uuid: Seq<char>)
    requires
        0 <= i < s.len(),
        s[i].uuid@ == uuid,
        forall|j: int| 0 <= j < i ==> s[j].uuid@ != uuid,
    ensures
        album_index_of(s, uuid) == i,
    decreases s.len(),
{
    if i > 0 {
        lemma_album_first(s.drop_first(), i - 1, uuid);
        assert(forall|j: int| 0 <= j < s.drop_first().len()
            ==> s.drop_first()[j] == s[j + 1]);
    }
}

pub proof fn lemma_album_id_first(s: Seq<Album>, i: int, id: int)
    requires
        0 <= i < s.len(),
        s[i].id == id,
        forall|j: int| 0 <= j < i ==> s[j].id != id,
    ensures
        album_id_index_of(s, id) == i,
    decreases s.len(),
{
    if i > 0 {
        lemma_album_id_first(s.drop_first(), i - 1, id);
        assert(forall|j: int| 0 <= j < s.drop_first().len()
            ==> s.drop_first()[j] == s[j + 1]);
    }
}

pub proof fn lemma_episode_first(s: Seq<Episode>, i: int, uuid: Seq<char>)
    requires
        0 <= i < s.len(),
        s[i].uuid@ == uuid,
        forall|j: int| 0 <= j < i ==> s[j].uuid@ != uuid,
    ensures
        episode_index_of(s, uuid) == i,
    decreases s.len(),
{
    if i > 0 {
        lemma_episode_first(s.drop_first(), i - 1, uuid);
        assert(forall|j: int| 0 <= j < s.drop_first().len()
            ==> s.drop_first()[j] == s[j + 1]);
    }
}

pub proof fn lemma_episode_id_first(s: Seq<Episode>, i: int, id: int)
    requires
        0 <= i < s.len(),
        s[i].id matches Some(v) && v == id,
        forall|j: int| 0 <= j < i ==> !(#[trigger] s[j].id matches Some(v) && v == id),
    ensures
        episode_id_index_of(s, id) == i,
    decreases s.len(),
{
    if i > 0 {
        lemma_episode_id_first(s.drop_first(), i - 1, id);
        assert(forall|j: int| 0 <= j < s.drop_first().len()
            ==> s.drop_first()[j] == s[j + 1]);
    }
}

pub proof fn lemma_content_first(s: Seq<Content>, i: int, uuid: Seq<char>)
    requires
        0 <= i < s.len(),
        s[i].uuid@ == uuid,
        forall|j: int| 0 <= j < i ==> s[j].uuid@ != uuid,
    ensures
        content_index_of(s, uuid) == i,
    decreases s.len(),
{
    if i > 0 {
        lemma_content_first(s.drop_first(), i - 1, uuid);
        assert(forall|j: int| 0 <= j < s.drop_first().len()
            ==> s.drop_first()[j] == s[j + 1]);
    }
}

pub proof fn lemma_category_id_first(s: Seq<Category>, i: int, id: int)
    requires
        0 <= i < s.len(),
        s[i].id matches Some(v) && v == id,
        forall|j: int| 0 <= j < i ==> !(#[trigger] s[j].id matches Some(v) && v == id),
    ensures
        category_id_index_of(s, id) == i,
    decreases s.len(),
{
    if i > 0 {
        lemma_category_id_first(s.drop_first(), i - 1, id);
        assert(forall|j: int| 0 <= j < s.drop_first().len()
            ==> s.drop_first()[j] == s[j + 1]);
    }
}

} // verus!
