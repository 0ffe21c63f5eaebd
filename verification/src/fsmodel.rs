//! The library's model of the asset filesystem.
//!
//! The store sees the disk as a map from file paths to byte contents plus
//! a set of directories; these operations are its only way to change it.
//! They mirror the filesystem utilities of the running system: create if
//! missing, move and replace, delete if present — each idempotent, each
//! total, absence never an error.  An adapter replays the same operations
//! on a real disk outside the verified library.

use vstd::prelude::*;
use vstd::map_lib::*;
use crate::paths::{is_under, dir_prefix_of, path_is_under, get_directory_from_file_path, vec_contains_string};

verus! {

/// One file: its path and its bytes.
pub struct FsFile {
    pub path: String,
    pub bytes: Vec<u8>,
}

/// The modelled filesystem.
pub struct FsModel {
    files: Vec<FsFile>,
    dirs: Vec<String>,
}

/// The map a sequence of files denotes, later entries winning.
pub open spec fn files_map(s: Seq<FsFile>) -> Map<Seq<char>, Seq<u8>>
    decreases s.len(),
{
    if s.len() == 0 {
        Map::empty()
    } else {
        files_map(s.drop_last()).insert(s.last().path@, s.last().bytes@)
    }
}

/// The set a sequence of directory names denotes.
pub open spec fn dirs_set(s: Seq<String>) -> Set<Seq<char>>
    decreases s.len(),
{
    if s.len() == 0 {
        Set::empty()
    } else {
        dirs_set(s.drop_last()).insert(s.last()@)
    }
}

pub open spec fn paths_distinct(s: Seq<FsFile>) -> bool {
    forall|i: int, j: int| 0 <= i < j < s.len() ==> s[i].path@ != s[j].path@
}

proof fn lemma_files_map_dom(s: Seq<FsFile>, p: Seq<char>)
    ensures
        files_map(s).dom().contains(p) <==> exists|i: int| 0 <= i < s.len() && s[i].path@ == p,
    decreases s.len(),
{
    if s.len() > 0 {
        lemma_files_map_dom(s.drop_last(), p);
        if s.last().path@ == p {
            assert(s[s.len() - 1].path@ == p);
        } else if exists|i: int| 0 <= i < s.len() - 1 && s.drop_last()[i].path@ == p {
            let i = choose|i: int| 0 <= i < s.len() - 1 && s.drop_last()[i].path@ == p;
            assert(s[i].path@ == p);
        } else if exists|i: int| 0 <= i < s.len() && s[i].path@ == p {
            let i = choose|i: int| 0 <= i < s.len() && s[i].path@ == p;
            if i < s.len() - 1 {
                assert(s.drop_last()[i].path@ == p);
            }
        }
    }
}

proof fn lemma_drop_last_distinct(s: Seq<FsFile>)
    requires
        paths_distinct(s),
        s.len() > 0,
    ensures
        paths_distinct(s.drop_last()),
{
    assert(forall|a: int| 0 <= a < s.len() - 1 ==> s.drop_last()[a] == s[a]);
}

proof fn lemma_files_map_at(s: Seq<FsFile>, i: int)
    requires
        paths_distinct(s),
        0 <= i < s.len(),
    ensures
        files_map(s).dom().contains(s[i].path@),
        files_map(s)[s[i].path@] == s[i].bytes@,
    decreases s.len(),
{
    if i == s.len() - 1 {
    } else {
        lemma_drop_last_distinct(s);
        lemma_files_map_at(s.drop_last(), i);
        assert(s.drop_last()[i] == s[i]);
        assert(s[i].path@ != s.last().path@);
    }
}

proof fn lemma_dirs_set_contains(s: Seq<String>, d: Seq<char>)
    ensures
        dirs_set(s).contains(d) <==> exists|i: int| 0 <= i < s.len() && s[i]@ == d,
    decreases s.len(),
{
    if s.len() > 0 {
        lemma_dirs_set_contains(s.drop_last(), d);
        if s.last()@ == d {
            assert(s[s.len() - 1]@ == d);
        } else if exists|i: int| 0 <= i < s.len() - 1 && s.drop_last()[i]@ == d {
            let i = choose|i: int| 0 <= i < s.len() - 1 && s.drop_last()[i]@ == d;
            assert(s[i]@ == d);
        } else if exists|i: int| 0 <= i < s.len() && s[i]@ == d {
            let i = choose|i: int| 0 <= i < s.len() && s[i]@ == d;
            if i < s.len() - 1 {
                assert(s.drop_last()[i]@ == d);
            }
        }
    }
}

/// Removing index `i` removes that key from the map, when paths are
/// distinct.
proof fn lemma_files_map_remove(s: Seq<FsFile>, i: int)
    requires
        paths_distinct(s),
        0 <= i < s.len(),
    ensures
        files_map(s.remove(i)) =~= files_map(s).remove(s[i].path@),
        paths_distinct(s.remove(i)),
    decreases s.len(),
{
    assert(forall|a: int| 0 <= a < s.len() - 1
        ==> s.remove(i)[a] == (if a < i { s[a] } else { s[a + 1] }));
    if i == s.len() - 1 {
        assert(s.remove(i) =~= s.drop_last());
        lemma_files_map_dom(s.drop_last(), s[i].path@);
        assert(files_map(s.drop_last()) =~= files_map(s).remove(s[i].path@));
    } else {
        lemma_drop_last_distinct(s);
        lemma_files_map_remove(s.drop_last(), i);
        assert(s.remove(i).drop_last() =~= s.drop_last().remove(i));
        assert(s.remove(i).last() == s.last());
        assert(s[i].path@ != s.last().path@);
    }
}

/// Every element of a filtered sequence occurs in the original.
proof fn lemma_filter_elem_of<A>(s: Seq<A>, pred: spec_fn(A) -> bool, a: int)
    requires
        0 <= a < s.filter(pred).len(),
    ensures
        exists|j: int| 0 <= j < s.len() && s[j] == s.filter(pred)[a],
    decreases s.len(),
{
    reveal(Seq::filter);
    if s.len() > 0 {
        let rest = s.drop_last().filter(pred);
        if pred(s.last()) && a == rest.len() {
            assert(s.filter(pred)[a] == s.last());
            assert(s[s.len() - 1] == s.filter(pred)[a]);
        } else {
            lemma_filter_elem_of(s.drop_last(), pred, a);
            let j = choose|j: int| 0 <= j < s.drop_last().len()
                && s.drop_last()[j] == rest[a];
            assert(s[j] == s.filter(pred)[a]);
        }
    }
}

/// Filtering the files by a predicate on their paths filters the map by
/// the matching predicate on its keys.
proof fn lemma_files_map_filter(
    s: Seq<FsFile>,
    fkeep: spec_fn(FsFile) -> bool,
    kkeep: spec_fn(Seq<char>) -> bool,
)
    requires
        forall|f: FsFile| #[trigger] fkeep(f) == kkeep(f.path@),
    ensures
        files_map(s.filter(fkeep)) =~= files_map(s).filter_keys(kkeep),
    decreases s.len(),
{
    reveal(Seq::filter);
    if s.len() > 0 {
        lemma_files_map_filter(s.drop_last(), fkeep, kkeep);
        lemma_files_map_dom(s.drop_last(), s.last().path@);
        let rest = s.drop_last().filter(fkeep);
        if fkeep(s.last()) {
            assert(s.filter(fkeep) == rest.push(s.last()));
            assert(rest.push(s.last()).drop_last() =~= rest);
            assert(files_map(s.filter(fkeep))
                == files_map(rest).insert(s.last().path@, s.last().bytes@));
        }
    }
}

/// Filtering keeps paths distinct.
proof fn lemma_filter_distinct(s: Seq<FsFile>, keep: spec_fn(FsFile) -> bool)
    requires
        paths_distinct(s),
    ensures
        paths_distinct(s.filter(keep)),
    decreases s.len(),
{
    reveal(Seq::filter);
    if s.len() > 0 {
        lemma_drop_last_distinct(s);
        lemma_filter_distinct(s.drop_last(), keep);
        if keep(s.last()) {
            let t = s.drop_last().filter(keep);
            assert forall|a: int, b: int| 0 <= a < b < t.push(s.last()).len()
                implies t.push(s.last())[a].path@ != t.push(s.last())[b].path@ by {
                if b == t.len() {
                    lemma_filter_elem_of(s.drop_last(), keep, a);
                    let j = choose|j: int| 0 <= j < s.drop_last().len()
                        && s.drop_last()[j] == t[a];
                    assert(s[j] == t[a]);
                    assert(s[j].path@ != s.last().path@);
                }
            }
        }
    }
}

/// Filtering the directories likewise filters the set.
proof fn lemma_dirs_set_filter(
    s: Seq<String>,
    dkeep: spec_fn(String) -> bool,
    kkeep: spec_fn(Seq<char>) -> bool,
)
    requires
        forall|d: String| #[trigger] dkeep(d) == kkeep(d@),
    ensures
        dirs_set(s.filter(dkeep)) =~= dirs_set(s).filter(kkeep),
    decreases s.len(),
{
    reveal(Seq::filter);
    if s.len() > 0 {
        lemma_dirs_set_filter(s.drop_last(), dkeep, kkeep);
        lemma_dirs_set_contains(s.drop_last(), s.last()@);
        let rest = s.drop_last().filter(dkeep);
        if dkeep(s.last()) {
            assert(s.filter(dkeep) == rest.push(s.last()));
            assert(rest.push(s.last()).drop_last() =~= rest);
            assert(dirs_set(s.filter(dkeep)) == dirs_set(rest).insert(s.last()@));
        }
    }
}

/// One step of filtering from the front.
proof fn lemma_take_filter_step(s: Seq<FsFile>, keep: spec_fn(FsFile) -> bool, j: int)
    requires
        0 <= j < s.len(),
    ensures
        keep(s[j]) ==> s.take(j + 1).filter(keep) =~= s.take(j).filter(keep).push(s[j]),
        !keep(s[j]) ==> s.take(j + 1).filter(keep) =~= s.take(j).filter(keep),
{
    reveal_with_fuel(Seq::filter, 2);
    assert(s.take(j + 1).drop_last() =~= s.take(j));
    assert(s.take(j + 1).last() == s[j]);
}

proof fn lemma_dirs_take_filter_step(s: Seq<String>, keep: spec_fn(String) -> bool, j: int)
    requires
        0 <= j < s.len(),
    ensures
        keep(s[j]) ==> s.take(j + 1).filter(keep) =~= s.take(j).filter(keep).push(s[j]),
        !keep(s[j]) ==> s.take(j + 1).filter(keep) =~= s.take(j).filter(keep),
{
    reveal_with_fuel(Seq::filter, 2);
    assert(s.take(j + 1).drop_last() =~= s.take(j));
    assert(s.take(j + 1).last() == s[j]);
}

impl View for FsModel {
    type V = Map<Seq<char>, Seq<u8>>;

    /// The files on disk, as a map from path to contents.
    closed spec fn view(&self) -> Map<Seq<char>, Seq<u8>> {
        files_map(self.files@)
    }
}

impl FsModel {
    /// The directories on disk, beyond those the file paths imply.
    pub closed spec fn dirs_view(&self) -> Set<Seq<char>> {
        dirs_set(self.dirs@)
    }

    pub closed spec fn inv(&self) -> bool {
        paths_distinct(self.files@)
    }

    /// An empty filesystem.
    pub fn new() -> (r: FsModel)
        ensures
            r.inv(),
            r@ =~= Map::<Seq<char>, Seq<u8>>::empty(),
            r.dirs_view() =~= Set::<Seq<char>>::empty(),
    {
        FsModel { files: Vec::new(), dirs: Vec::new() }
    }

    /// A directory exists once recorded, or implicitly as the ancestor of
    /// any recorded file or directory.
    pub open spec fn dir_exists_spec(&self, d: Seq<char>) -> bool {
        ||| self.dirs_view().contains(d)
        ||| exists|x: Seq<char>| #[trigger] self.dirs_view().contains(x) && is_under(x, d)
        ||| exists|p: Seq<char>| #[trigger] self@.dom().contains(p) && is_under(p, d)
    }

    /// Whether the directory `d` exists.
    pub fn dir_exists(&self, d: &str) -> (r: bool)
        ensures
            r == self.dir_exists_spec(d@),
    {
        let mut i: usize = 0;
        while i < self.dirs.len()
            invariant
                i <= self.dirs@.len(),
                forall|j: int| 0 <= j < i
                    ==> self.dirs@[j]@ != d@ && !is_under(#[trigger] self.dirs@[j]@, d@),
            decreases self.dirs@.len() - i,
        {
            let same = crate::text::str_eq(self.dirs[i].as_str(), d);
            let under = path_is_under(self.dirs[i].as_str(), d);
            if same || under {
                proof {
                    lemma_dirs_set_contains(self.dirs@, self.dirs@[i as int]@);
                    assert(self.dirs_view().contains(self.dirs@[i as int]@));
                }
                return true;
            }
            i += 1;
        }
        let mut k: usize = 0;
        while k < self.files.len()
            invariant
                k <= self.files@.len(),
                forall|j: int| 0 <= j < k ==> !is_under(#[trigger] self.files@[j].path@, d@),
            decreases self.files@.len() - k,
        {
            if path_is_under(self.files[k].path.as_str(), d) {
                proof {
                    lemma_files_map_dom(self.files@, self.files@[k as int].path@);
                    assert(self@.dom().contains(self.files@[k as int].path@));
                }
                return true;
            }
            k += 1;
        }
        proof {
            if self.dirs_view().contains(d@) {
                lemma_dirs_set_contains(self.dirs@, d@);
            }
            assert forall|x: Seq<char>|
                #[trigger] self.dirs_view().contains(x) implies !is_under(x, d@) by {
                lemma_dirs_set_contains(self.dirs@, x);
            }
            assert forall|p: Seq<char>|
                #[trigger] self@.dom().contains(p) implies !is_under(p, d@) by {
                lemma_files_map_dom(self.files@, p);
            }
        }
        false
    }

    /// Whether a file exists at `p`.
    pub fn exists_file(&self, p: &str) -> (r: bool)
        ensures
            r == self@.dom().contains(p@),
    {
        let mut i: usize = 0;
        while i < self.files.len()
            invariant
                i <= self.files@.len(),
                forall|j: int| 0 <= j < i ==> self.files@[j].path@ != p@,
            decreases self.files@.len() - i,
        {
            if crate::text::str_eq(self.files[i].path.as_str(), p) {
                proof {
                    lemma_files_map_dom(self.files@, p@);
                }
                return true;
            }
            i += 1;
        }
        proof {
            lemma_files_map_dom(self.files@, p@);
        }
        false
    }

    /// The bytes at `p`, when a file is there.
    pub fn read_file(&self, p: &str) -> (r: Option<&Vec<u8>>)
        requires
            self.inv(),
        ensures
            r is Some <==> self@.dom().contains(p@),
            r matches Some(b) ==> self@[p@] == b@,
    {
        let mut i: usize = 0;
        while i < self.files.len()
            invariant
                self.inv(),
                i <= self.files@.len(),
                forall|j: int| 0 <= j < i ==> self.files@[j].path@ != p@,
            decreases self.files@.len() - i,
        {
            if crate::text::str_eq(self.files[i].path.as_str(), p) {
                proof {
                    lemma_files_map_at(self.files@, i as int);
                }
                return Some(&self.files[i].bytes);
            }
            i += 1;
        }
        proof {
            lemma_files_map_dom(self.files@, p@);
        }
        None
    }

    /// Record the parent directory of `path` as existing, as the running
    /// system's create-if-missing does before each file write.
    pub fn create_directory_if_not_exists(&mut self, path: &str)
        requires
            old(self).inv(),
        ensures
            final(self).inv(),
            final(self)@ == old(self)@,
            final(self).dirs_view() == match dir_prefix_of(path@) {
                Some(d) => old(self).dirs_view().insert(d),
                None => old(self).dirs_view(),
            },
    {
        match get_directory_from_file_path(path) {
            Some(parent) => {
                if !vec_contains_string(&self.dirs, parent.as_str()) {
                    self.dirs.push(parent);
                    proof {
                        assert(self.dirs@.drop_last() =~= old(self).dirs@);
                    }
                } else {
                    proof {
                        lemma_dirs_set_contains(self.dirs@, parent@);
                        assert(self.dirs_view() =~= old(self).dirs_view().insert(parent@));
                    }
                }
            },
            None => {},
        }
    }

    /// Write `bytes` at `path`, replacing any file already there, after
    /// ensuring the parent directory exists.
    pub fn save_file_to_directory(&mut self, path: &str, bytes: Vec<u8>)
        requires
            old(self).inv(),
        ensures
            final(self).inv(),
            final(self)@ == old(self)@.insert(path@, bytes@),
            final(self).dirs_view() == match dir_prefix_of(path@) {
                Some(d) => old(self).dirs_view().insert(d),
                None => old(self).dirs_view(),
            },
    {
        self.delete_file_entry(path);
        let ghost mid = self.files@;
        let ghost bv = bytes@;
        self.files.push(FsFile { path: path.to_owned(), bytes });
        proof {
            assert(self.files@.drop_last() =~= mid);
            assert(self@ =~= old(self)@.insert(path@, bv));
            assert(paths_distinct(self.files@)) by {
                assert(forall|a: int| 0 <= a < mid.len() ==> self.files@[a] == mid[a]);
            }
        }
        self.create_directory_if_not_exists(path);
    }

    /// Delete the file at `path` if one is there; absence is success.
    pub fn delete_file_if_exists(&mut self, path: &str)
        requires
            old(self).inv(),
        ensures
            final(self).inv(),
            final(self)@ == old(self)@.remove(path@),
            final(self).dirs_view() == old(self).dirs_view(),
    {
        self.delete_file_entry(path);
    }

    /// Remove the entry for `path` from the file list, if any.
    fn delete_file_entry(&mut self, path: &str)
        requires
            old(self).inv(),
        ensures
            final(self).inv(),
            final(self)@ == old(self)@.remove(path@),
            final(self).dirs@ == old(self).dirs@,
            forall|j: int| 0 <= j < final(self).files@.len()
                ==> #[trigger] final(self).files@[j].path@ != path@,
    {
        let mut i: usize = 0;
        while i < self.files.len()
            invariant
                i <= self.files@.len(),
                self.files@ == old(self).files@,
                self.dirs@ == old(self).dirs@,
                paths_distinct(self.files@),
                forall|j: int| 0 <= j < i ==> self.files@[j].path@ != path@,
            decreases self.files@.len() - i,
        {
            if crate::text::str_eq(self.files[i].path.as_str(), path) {
                proof {
                    lemma_files_map_remove(self.files@, i as int);
                }
                let ghost pre = self.files@;
                self.files.remove(i);
                proof {
                    assert(forall|a: int| 0 <= a < self.files@.len()
                        ==> self.files@[a] == (if a < i { pre[a] } else { pre[a + 1] }));
                    assert forall|j: int| 0 <= j < self.files@.len()
                        implies #[trigger] self.files@[j].path@ != path@ by {
                        if j >= i {
                            assert(pre[j + 1].path@ != pre[i as int].path@);
                        }
                    }
                }
                return;
            }
            i += 1;
        }
        proof {
            lemma_files_map_dom(self.files@, path@);
            assert(self@ =~= old(self)@.remove(path@));
        }
    }

    /// Delete the directory `path` and everything under it, if present;
    /// absence is success.
    pub fn delete_directory_if_exists(&mut self, path: &str)
        requires
            old(self).inv(),
        ensures
            final(self).inv(),
            final(self)@ == old(self)@.filter_keys(|p: Seq<char>| !is_under(p, path@)),
            final(self).dirs_view() == old(self).dirs_view().filter(
                |d: Seq<char>| d != path@ && !is_under(d, path@)),
    {
        self.remove_files_under(path);
        self.remove_dirs_under(path);
    }

    /// Remove every file whose path lies under `path`.
    fn remove_files_under(&mut self, path: &str)
        requires
            old(self).inv(),
        ensures
            final(self).inv(),
            final(self)@ == old(self)@.filter_keys(|p: Seq<char>| !is_under(p, path@)),
            final(self).dirs@ == old(self).dirs@,
    {
        let ghost orig = self.files@;
        let ghost fkeep = |f: FsFile| !is_under(f.path@, path@);
        let mut i: usize = 0;
        let ghost mut j: int = 0;
        while i < self.files.len()
            invariant
                0 <= j <= orig.len(),
                fkeep == (|f: FsFile| !is_under(f.path@, path@)),
                paths_distinct(orig),
                self.files@ == orig.take(j).filter(fkeep) + orig.skip(j),
                i == orig.take(j).filter(fkeep).len(),
                self.dirs@ == old(self).dirs@,
            decreases orig.len() - j,
        {
            proof {
                assert(j < orig.len());
                assert(self.files@[i as int] == orig.skip(j)[0]);
                assert(orig.skip(j)[0] == orig[j]);
                lemma_take_filter_step(orig, fkeep, j);
            }
            if path_is_under(self.files[i].path.as_str(), path) {
                let ghost pre = self.files@;
                self.files.remove(i);
                proof {
                    assert(self.files@ =~= pre.remove(i as int));
                    assert(pre.remove(i as int)
                        =~= orig.take(j).filter(fkeep) + orig.skip(j + 1)) by {
                        assert(forall|a: int| 0 <= a < pre.len() - 1
                            ==> pre.remove(i as int)[a]
                                == (if a < i { pre[a] } else { pre[a + 1] }));
                        assert(forall|a: int| 0 <= a < orig.skip(j + 1).len()
                            ==> #[trigger] orig.skip(j + 1)[a] == orig[j + 1 + a]
                                && orig.skip(j)[a + 1] == orig[j + 1 + a]);
                    }
                    j = j + 1;
                }
            } else {
                proof {
                    assert(orig.take(j + 1).filter(fkeep)
                        =~= orig.take(j).filter(fkeep).push(orig[j]));
                    assert(self.files@ =~= orig.take(j + 1).filter(fkeep) + orig.skip(j + 1)) by {
                        assert(forall|a: int| 0 <= a < orig.skip(j + 1).len()
                            ==> #[trigger] orig.skip(j + 1)[a] == orig[j + 1 + a]
                                && orig.skip(j)[a + 1] == orig[j + 1 + a]);
                    }
                    j = j + 1;
                }
                i += 1;
            }
        }
        proof {
            assert(j == orig.len()) by {
                assert(self.files@.len() == orig.take(j).filter(fkeep).len() + orig.len() - j);
            }
            assert(orig.take(j) =~= orig);
            assert(self.files@ =~= orig.filter(fkeep));
            lemma_files_map_filter(orig, fkeep, |p: Seq<char>| !is_under(p, path@));
            lemma_filter_distinct(orig, fkeep);
            assert(self@ =~= old(self)@.filter_keys(|p: Seq<char>| !is_under(p, path@)));
        }
    }

    /// Remove the directory `path` itself and every directory under it.
    #[verifier::rlimit(50)]
    fn remove_dirs_under(&mut self, path: &str)
        requires
            old(self).inv(),
        ensures
            final(self).inv(),
            final(self)@ == old(self)@,
            final(self).files@ == old(self).files@,
            final(self).dirs_view() == old(self).dirs_view().filter(
                |d: Seq<char>| d != path@ && !is_under(d, path@)),
    {
        let ghost dorig = self.dirs@;
        let ghost dkeep = |d: String| d@ != path@ && !is_under(d@, path@);
        let mut k: usize = 0;
        let ghost mut m: int = 0;
        while k < self.dirs.len()
            invariant
                0 <= m <= dorig.len(),
                dkeep == (|d: String| d@ != path@ && !is_under(d@, path@)),
                self.dirs@ == dorig.take(m).filter(dkeep) + dorig.skip(m),
                k == dorig.take(m).filter(dkeep).len(),
                self.files@ == old(self).files@,
            decreases dorig.len() - m,
        {
            proof {
                assert(m < dorig.len());
                assert(self.dirs@[k as int] == dorig.skip(m)[0]);
                assert(dorig.skip(m)[0] == dorig[m]);
                lemma_dirs_take_filter_step(dorig, dkeep, m);
            }
            let same = crate::text::str_eq(self.dirs[k].as_str(), path);
            let under = path_is_under(self.dirs[k].as_str(), path);
            if same || under {
                let ghost pre = self.dirs@;
                self.dirs.remove(k);
                proof {
                    assert(pre.remove(k as int)
                        =~= dorig.take(m).filter(dkeep) + dorig.skip(m + 1)) by {
                        assert(forall|a: int| 0 <= a < pre.len() - 1
                            ==> pre.remove(k as int)[a]
                                == (if a < k { pre[a] } else { pre[a + 1] }));
                        assert(forall|a: int| 0 <= a < dorig.skip(m + 1).len()
                            ==> #[trigger] dorig.skip(m + 1)[a] == dorig[m + 1 + a]
                                && dorig.skip(m)[a + 1] == dorig[m + 1 + a]);
                    }
                    m = m + 1;
                }
            } else {
                proof {
                    assert(dorig.take(m + 1).filter(dkeep)
                        =~= dorig.take(m).filter(dkeep).push(dorig[m]));
                    assert(self.dirs@ =~= dorig.take(m + 1).filter(dkeep) + dorig.skip(m + 1)) by {
                        assert(forall|a: int| 0 <= a < dorig.skip(m + 1).len()
                            ==> #[trigger] dorig.skip(m + 1)[a] == dorig[m + 1 + a]
                                && dorig.skip(m)[a + 1] == dorig[m + 1 + a]);
                    }
                    m = m + 1;
                }
                k += 1;
            }
        }
        proof {
            assert(m == dorig.len()) by {
                assert(self.dirs@.len() == dorig.take(m).filter(dkeep).len() + dorig.len() - m);
            }
            assert(dorig.take(m) =~= dorig);
            assert(self.dirs@ =~= dorig.filter(dkeep));
            lemma_dirs_set_filter(dorig, dkeep,
                |d: Seq<char>| d != path@ && !is_under(d, path@));
            assert(self.dirs_view() =~= old(self).dirs_view().filter(
                |d: Seq<char>| d != path@ && !is_under(d, path@)));
        }
    }

    /// Move the file at `src` to `dest`, replacing whatever is there.
    /// Each step is best-effort, as in the running system: the
    /// destination's parent is created, the destination is cleared first,
    /// and a missing source aborts the rest without error.
    pub fn move_file_and_replace(&mut self, src: &str, dest: &str)
        requires
            old(self).inv(),
        ensures
            final(self).inv(),
            final(self).dirs_view() == match dir_prefix_of(dest@) {
                Some(d) => old(self).dirs_view().insert(d),
                None => old(self).dirs_view(),
            },
            old(self)@.dom().contains(src@) && src@ != dest@
                ==> final(self)@ == old(self)@.remove(src@).insert(dest@, old(self)@[src@]),
            !old(self)@.dom().contains(src@)
                ==> final(self)@ == old(self)@.remove(dest@),
            old(self)@.dom().contains(src@) && src@ == dest@
                ==> final(self)@ == old(self)@.remove(src@),
    {
        self.create_directory_if_not_exists(dest);
        self.delete_file_if_exists(dest);
        let moved: Option<Vec<u8>> = match self.read_file(src) {
            Some(b) => Some(b.clone()),
            None => None,
        };
        match moved {
            Some(bytes) => {
                self.save_file_to_directory(dest, bytes);
                self.delete_file_if_exists(src);
                proof {
                    if src@ != dest@ {
                        assert(self@ =~= old(self)@.remove(src@).insert(dest@, old(self)@[src@]));
                    }
                }
            },
            None => {
                proof {
                    assert(self@ =~= old(self)@.remove(dest@));
                }
            },
        }
    }
}

} // verus!
