//! Field maps: what multipart ingestion accumulates.
//!
//! Scalar fields land in a `FieldMap` (last write for a name wins); file
//! parts land in a `FileMap`, which keeps one ordered, duplicate-free list
//! of staged paths per field name.  After the stream is drained the file
//! map is folded into the field map, a pluralization heuristic deciding
//! whether a name carries a single path or a list.

use vstd::prelude::*;
use crate::value::{FieldValue, ValueModel};
use crate::paths::vec_contains_string;
use crate::text::str_views;

verus! {

/// One scalar form field.
#[derive(Debug)]
pub struct FieldEntry {
    pub name: String,
    pub value: FieldValue,
}

/// An ordered mapping from field name to typed value.
#[derive(Debug)]
pub struct FieldMap {
    entries: Vec<FieldEntry>,
}

/// One file field: the staged paths recorded under a name.
#[derive(Debug)]
pub struct FileEntry {
    pub name: String,
    pub paths: Vec<String>,
}

/// An ordered mapping from field name to staged file paths.
#[derive(Debug)]
pub struct FileMap {
    entries: Vec<FileEntry>,
}

/// The map a sequence of field entries denotes, later entries winning.
pub open spec fn field_entries_map(s: Seq<FieldEntry>) -> Map<Seq<char>, ValueModel>
    decreases s.len(),
{
    if s.len() == 0 {
        Map::empty()
    } else {
        field_entries_map(s.drop_last()).insert(s.last().name@, s.last().value@)
    }
}

/// The map a sequence of file entries denotes.
pub open spec fn file_entries_map(s: Seq<FileEntry>) -> Map<Seq<char>, Seq<Seq<char>>>
    decreases s.len(),
{
    if s.len() == 0 {
        Map::empty()
    } else {
        file_entries_map(s.drop_last()).insert(s.last().name@, str_views(s.last().paths@))
    }
}

pub open spec fn field_names_distinct(s: Seq<FieldEntry>) -> bool {
    forall|i: int, j: int| 0 <= i < j < s.len() ==> s[i].name@ != s[j].name@
}

pub open spec fn file_names_distinct(s: Seq<FileEntry>) -> bool {
    forall|i: int, j: int| 0 <= i < j < s.len() ==> s[i].name@ != s[j].name@
}

proof fn lemma_field_map_dom(s: Seq<FieldEntry>, k: Seq<char>)
    ensures
        field_entries_map(s).dom().contains(k)
            <==> exists|i: int| 0 <= i < s.len() && s[i].name@ == k,
    decreases s.len(),
{
    if s.len() > 0 {
        lemma_field_map_dom(s.drop_last(), k);
        if s.last().name@ == k {
            assert(s[s.len() - 1].name@ == k);
        } else if exists|i: int| 0 <= i < s.len() - 1 && s.drop_last()[i].name@ == k {
            let i = choose|i: int| 0 <= i < s.len() - 1 && s.drop_last()[i].name@ == k;
            assert(s[i].name@ == k);
        } else if exists|i: int| 0 <= i < s.len() && s[i].name@ == k {
            let i = choose|i: int| 0 <= i < s.len() && s[i].name@ == k;
            if i < s.len() - 1 {
                assert(s.drop_last()[i].name@ == k);
            }
        }
    }
}

proof fn lemma_field_map_at(s: Seq<FieldEntry>, i: int)
    requires
        field_names_distinct(s),
        0 <= i < s.len(),
    ensures
        field_entries_map(s).dom().contains(s[i].name@),
        field_entries_map(s)[s[i].name@] == s[i].value@,
    decreases s.len(),
{
    if i == s.len() - 1 {
    } else {
        assert(forall|a: int| 0 <= a < s.len() - 1 ==> s.drop_last()[a] == s[a]);
        lemma_field_map_at(s.drop_last(), i);
        assert(s[i].name@ != s.last().name@);
    }
}

proof fn lemma_field_map_remove(s: Seq<FieldEntry>, i: int)
    requires
        field_names_distinct(s),
        0 <= i < s.len(),
    ensures
        field_entries_map(s.remove(i)) =~= field_entries_map(s).remove(s[i].name@),
        field_names_distinct(s.remove(i)),
    decreases s.len(),
{
    assert(forall|a: int| 0 <= a < s.len() - 1
        ==> s.remove(i)[a] == (if a < i { s[a] } else { s[a + 1] }));
    if i == s.len() - 1 {
        assert(s.remove(i) =~= s.drop_last());
        lemma_field_map_dom(s.drop_last(), s[i].name@);
        assert(field_entries_map(s.drop_last()) =~= field_entries_map(s).remove(s[i].name@));
    } else {
        assert(forall|a: int| 0 <= a < s.len() - 1 ==> s.drop_last()[a] == s[a]);
        lemma_field_map_remove(s.drop_last(), i);
        assert(s.remove(i).drop_last() =~= s.drop_last().remove(i));
        assert(s.remove(i).last() == s.last());
        assert(s[i].name@ != s.last().name@);
    }
}

proof fn lemma_file_map_dom(s: Seq<FileEntry>, k: Seq<char>)
    ensures
        file_entries_map(s).dom().contains(k)
            <==> exists|i: int| 0 <= i < s.len() && s[i].name@ == k,
    decreases s.len(),
{
    if s.len() > 0 {
        lemma_file_map_dom(s.drop_last(), k);
        if s.last().name@ == k {
            assert(s[s.len() - 1].name@ == k);
        } else if exists|i: int| 0 <= i < s.len() - 1 && s.drop_last()[i].name@ == k {
            let i = choose|i: int| 0 <= i < s.len() - 1 && s.drop_last()[i].name@ == k;
            assert(s[i].name@ == k);
        } else if exists|i: int| 0 <= i < s.len() && s[i].name@ == k {
            let i = choose|i: int| 0 <= i < s.len() && s[i].name@ == k;
            if i < s.len() - 1 {
                assert(s.drop_last()[i].name@ == k);
            }
        }
    }
}

proof fn lemma_file_map_at(s: Seq<FileEntry>, i: int)
    requires
        file_names_distinct(s),
        0 <= i < s.len(),
    ensures
        file_entries_map(s).dom().contains(s[i].name@),
        file_entries_map(s)[s[i].name@] == str_views(s[i].paths@),
    decreases s.len(),
{
    if i == s.len() - 1 {
    } else {
        assert(forall|a: int| 0 <= a < s.len() - 1 ==> s.drop_last()[a] == s[a]);
        lemma_file_map_at(s.drop_last(), i);
        assert(s[i].name@ != s.last().name@);
    }
}

impl View for FieldMap {
    type V = Map<Seq<char>, ValueModel>;

    closed spec fn view(&self) -> Map<Seq<char>, ValueModel> {
        field_entries_map(self.entries@)
    }
}

impl FieldMap {
    pub closed spec fn inv(&self) -> bool {
        field_names_distinct(self.entries@)
    }

    /// An empty field map.
    pub fn new() -> (r: FieldMap)
        ensures
            r.inv(),
            r@ =~= Map::<Seq<char>, ValueModel>::empty(),
    {
        FieldMap { entries: Vec::new() }
    }

    /// Record `value` under `name`; the last write for a name wins.
    pub fn insert(&mut self, name: String, value: FieldValue)
        requires
            old(self).inv(),
        ensures
            final(self).inv(),
            final(self)@ == old(self)@.insert(name@, value@),
    {
        self.remove_entry(name.as_str());
        let ghost mid = self.entries@;
        let ghost nv = name@;
        let ghost vv = value@;
        self.entries.push(FieldEntry { name, value });
        proof {
            assert(self.entries@.drop_last() =~= mid);
            assert(self@ =~= old(self)@.insert(nv, vv));
            assert(field_names_distinct(self.entries@)) by {
                assert(forall|a: int| 0 <= a < mid.len() ==> self.entries@[a] == mid[a]);
            }
        }
    }

    /// Remove the entry for `name`, if any.
    fn remove_entry(&mut self, name: &str)
        requires
            old(self).inv(),
        ensures
            final(self).inv(),
            final(self)@ == old(self)@.remove(name@),
            forall|j: int| 0 <= j < final(self).entries@.len()
                ==> #[trigger] final(self).entries@[j].name@ != name@,
    {
        let mut i: usize = 0;
        while i < self.entries.len()
            invariant
                i <= self.entries@.len(),
                self.entries@ == old(self).entries@,
                field_names_distinct(self.entries@),
                forall|j: int| 0 <= j < i ==> self.entries@[j].name@ != name@,
            decreases self.entries@.len() - i,
        {
            if crate::text::str_eq(self.entries[i].name.as_str(), name) {
                proof {
                    lemma_field_map_remove(self.entries@, i as int);
                }
                let ghost pre = self.entries@;
                self.entries.remove(i);
                proof {
                    assert(forall|a: int| 0 <= a < self.entries@.len()
                        ==> self.entries@[a] == (if a < i { pre[a] } else { pre[a + 1] }));
                    assert forall|j: int| 0 <= j < self.entries@.len()
                        implies #[trigger] self.entries@[j].name@ != name@ by {
                        if j >= i {
                            assert(pre[j + 1].name@ != pre[i as int].name@);
                        }
                    }
                }
                return;
            }
            i += 1;
        }
        proof {
            lemma_field_map_dom(self.entries@, name@);
            assert(self@ =~= old(self)@.remove(name@));
        }
    }

    /// The value recorded under `name`, if any.
    pub fn get(&self, name: &str) -> (r: Option<&FieldValue>)
        requires
            self.inv(),
        ensures
            r is Some <==> self@.dom().contains(name@),
            r matches Some(v) ==> self@[name@] == v@,
    {
        let mut i: usize = 0;
        while i < self.entries.len()
            invariant
                self.inv(),
                i <= self.entries@.len(),
                forall|j: int| 0 <= j < i ==> self.entries@[j].name@ != name@,
            decreases self.entries@.len() - i,
        {
            if crate::text::str_eq(self.entries[i].name.as_str(), name) {
                proof {
                    lemma_field_map_at(self.entries@, i as int);
                }
                return Some(&self.entries[i].value);
            }
            i += 1;
        }
        proof {
            lemma_field_map_dom(self.entries@, name@);
        }
        None
    }

    /// Whether a value is recorded under `name`.
    pub fn contains_key(&self, name: &str) -> (r: bool)
        requires
            self.inv(),
        ensures
            r == self@.dom().contains(name@),
    {
        self.get(name).is_some()
    }
}

/// What recording one more staged path under a name does to the file map:
/// a new name opens a one-path list, a known path is dropped, and any
/// other path is appended in arrival order.
pub open spec fn add_path_spec(
    m: Map<Seq<char>, Seq<Seq<char>>>,
    k: Seq<char>,
    p: Seq<char>,
) -> Map<Seq<char>, Seq<Seq<char>>> {
    if !m.dom().contains(k) {
        m.insert(k, seq![p])
    } else if m[k].contains(p) {
        m
    } else {
        m.insert(k, m[k].push(p))
    }
}

/// A map that accumulates, per field name, the staged paths of uploaded
/// files, in arrival order and without duplicates.
pub trait FileDataMap {
    spec fn paths_view(&self) -> Map<Seq<char>, Seq<Seq<char>>>;

    spec fn wf(&self) -> bool;

    /// Record that the file uploaded under `key` was staged at `path`,
    /// unless that exact path is already recorded for that key.
    fn add_file_path(&mut self, key: String, path: String)
        requires
            old(self).wf(),
        ensures
            final(self).wf(),
            final(self).paths_view() == add_path_spec(old(self).paths_view(), key@, path@),
    ;
}

impl View for FileMap {
    type V = Map<Seq<char>, Seq<Seq<char>>>;

    closed spec fn view(&self) -> Map<Seq<char>, Seq<Seq<char>>> {
        file_entries_map(self.entries@)
    }
}

impl FileDataMap for FileMap {
    open spec fn paths_view(&self) -> Map<Seq<char>, Seq<Seq<char>>> {
        self@
    }

    open spec fn wf(&self) -> bool {
        self.inv()
    }

    fn add_file_path(&mut self, key: String, path: String) {
        let mut i: usize = 0;
        while i < self.entries.len()
            invariant
                i <= self.entries@.len(),
                self.entries@ == old(self).entries@,
                file_names_distinct(self.entries@),
                forall|j: int| 0 <= j < i ==> self.entries@[j].name@ != key@,
            decreases self.entries@.len() - i,
        {
            if crate::text::str_eq(self.entries[i].name.as_str(), key.as_str()) {
                proof {
                    lemma_file_map_at(self.entries@, i as int);
                }
                let known = vec_contains_string(&self.entries[i].paths, path.as_str());
                if !known {
                    let ghost pre = self.entries@;
                    let ghost pv = path@;
                    let mut new_paths = clone_string_vec(&self.entries[i].paths);
                    new_paths.push(path);
                    let new_name = self.entries[i].name.clone();
                    proof {
                        assert(str_views(new_paths@)
                            =~= str_views(pre[i as int].paths@).push(pv));
                    }
                    self.entries.set(i, FileEntry { name: new_name, paths: new_paths });
                    proof {
                        lemma_update_entry(pre, self.entries@, i as int, pv);
                    }
                } else {
                    proof {
                        assert(str_views(self.entries@[i as int].paths@).contains(path@)) by {
                            let w = choose|w: int| 0 <= w < self.entries@[i as int].paths@.len()
                                && self.entries@[i as int].paths@[w]@ == path@;
                            assert(str_views(self.entries@[i as int].paths@)[w] == path@);
                        }
                    }
                }
                return;
            }
            i += 1;
        }
        proof {
            lemma_file_map_dom(self.entries@, key@);
        }
        let ghost mid = self.entries@;
        let ghost kv = key@;
        let ghost pv = path@;
        let mut paths: Vec<String> = Vec::new();
        paths.push(path);
        proof {
            assert(str_views(paths@) =~= seq![pv]);
        }
        self.entries.push(FileEntry { name: key, paths });
        proof {
            assert(self.entries@.drop_last() =~= mid);
            assert(self@ =~= add_path_spec(old(self)@, kv, pv));
            assert(file_names_distinct(self.entries@)) by {
                assert(forall|a: int| 0 <= a < mid.len() ==> self.entries@[a] == mid[a]);
            }
        }
    }
}

/// Replacing the paths of entry `i` by a pushed list updates that one key.
proof fn lemma_update_entry(pre: Seq<FileEntry>, post: Seq<FileEntry>, i: int, pv: Seq<char>)
    requires
        file_names_distinct(pre),
        0 <= i < pre.len(),
        post.len() == pre.len(),
        forall|a: int| 0 <= a < pre.len() && a != i ==> post[a] == pre[a],
        post[i].name@ == pre[i].name@,
        str_views(post[i].paths@) == str_views(pre[i].paths@).push(pv),
        !str_views(pre[i].paths@).contains(pv),
    ensures
        file_names_distinct(post),
        file_entries_map(post) =~= add_path_spec(file_entries_map(pre), pre[i].name@, pv),
    decreases pre.len(),
{
    lemma_file_map_at(pre, i);
    if i == pre.len() - 1 {
        assert(post.drop_last() =~= pre.drop_last());
        lemma_file_map_dom(pre.drop_last(), pre[i].name@);
        assert(file_entries_map(post)
            == file_entries_map(pre.drop_last()).insert(post[i].name@, str_views(post[i].paths@)));
        assert(file_entries_map(post) =~= add_path_spec(file_entries_map(pre), pre[i].name@, pv));
    } else {
        assert(forall|a: int| 0 <= a < pre.len() - 1 ==> pre.drop_last()[a] == pre[a]);
        assert(forall|a: int| 0 <= a < post.len() - 1 && a != i
            ==> post.drop_last()[a] == pre.drop_last()[a]);
        assert(post.drop_last()[i] == post[i]);
        lemma_update_entry(pre.drop_last(), post.drop_last(), i, pv);
        assert(post.last() == pre.last());
        assert(pre[i].name@ != pre.last().name@);
        lemma_file_map_dom(pre.drop_last(), pre[i].name@);
        assert(file_entries_map(post) =~= add_path_spec(file_entries_map(pre), pre[i].name@, pv));
    }
}

impl FileMap {
    pub closed spec fn inv(&self) -> bool {
        file_names_distinct(self.entries@)
    }

    /// An empty file map.
    pub fn new() -> (r: FileMap)
        ensures
            r.inv(),
            r@ =~= Map::<Seq<char>, Seq<Seq<char>>>::empty(),
    {
        FileMap { entries: Vec::new() }
    }

    /// The staged paths recorded under `name`, if any.
    pub fn get(&self, name: &str) -> (r: Option<&Vec<String>>)
        requires
            self.inv(),
        ensures
            r is Some <==> self@.dom().contains(name@),
            r matches Some(v) ==> self@[name@] == str_views(v@),
    {
        let mut i: usize = 0;
        while i < self.entries.len()
            invariant
                self.inv(),
                i <= self.entries@.len(),
                forall|j: int| 0 <= j < i ==> self.entries@[j].name@ != name@,
            decreases self.entries@.len() - i,
        {
            if crate::text::str_eq(self.entries[i].name.as_str(), name) {
                proof {
                    lemma_file_map_at(self.entries@, i as int);
                }
                return Some(&self.entries[i].paths);
            }
            i += 1;
        }
        proof {
            lemma_file_map_dom(self.entries@, name@);
        }
        None
    }
}

/// A field name ending in `s` (so also one ending in `es`) is treated as
/// inherently plural by the fold below.  A naming convention, not a schema
/// property: binding reads both shapes.
pub open spec fn is_multi_name(word: Seq<char>) -> bool {
    word.len() >= 1 && word.last() == 's'
}

/// Whether a field name is treated as plural.
pub fn is_multi_keywords(word: &str) -> (r: bool)
    ensures
        r == is_multi_name(word@),
{
    let n = word.unicode_len();
    n >= 1 && word.get_char(n - 1) == 's'
}

/// The shape a file field takes in the folded field map: a plural name
/// always folds to a list; otherwise one path folds to a scalar and two
/// or more fold to a list.
pub open spec fn folded_value(name: Seq<char>, paths: Seq<Seq<char>>) -> ValueModel {
    if is_multi_name(name) {
        ValueModel::StrList(paths)
    } else if paths.len() == 1 {
        ValueModel::Str(paths[0])
    } else {
        ValueModel::StrList(paths)
    }
}

impl FileMap {
    /// Fold every file field into the field map, plural names carrying
    /// lists and singular names a scalar path where only one was staged.
    pub fn fold_into(self, field_map: &mut FieldMap)
        requires
            self.inv(),
            old(field_map).inv(),
        ensures
            final(field_map).inv(),
            final(field_map)@ == old(field_map)@.union_prefer_right(
                self@.map_entries(|k: Seq<char>, ps: Seq<Seq<char>>| folded_value(k, ps))),
    {
        let entries = self.entries;
        let ghost all = entries@;
        let mut i: usize = 0;
        while i < entries.len()
            invariant
                i <= all.len(),
                entries@ == all,
                file_names_distinct(all),
                field_map.inv(),
                field_map@ == old(field_map)@.union_prefer_right(
                    file_entries_map(all.take(i as int)).map_entries(
                        |k: Seq<char>, ps: Seq<Seq<char>>| folded_value(k, ps))),
            decreases all.len() - i,
        {
            let name = entries[i].name.clone();
            let paths = clone_string_vec(&entries[i].paths);
            let value = if is_multi_keywords(name.as_str()) {
                FieldValue::StrList(paths)
            } else if paths.len() == 1 {
                let mut paths = paths;
                let only = paths.pop().unwrap();
                FieldValue::Str(only)
            } else {
                FieldValue::StrList(paths)
            };
            proof {
                assert(value@ == folded_value(all[i as int].name@, str_views(all[i as int].paths@)));
            }
            field_map.insert(name, value);
            proof {
                assert(all.take(i + 1).drop_last() =~= all.take(i as int));
                assert(all.take(i + 1).last() == all[i as int]);
                assert(field_map@ =~= old(field_map)@.union_prefer_right(
                    file_entries_map(all.take(i + 1)).map_entries(
                        |k: Seq<char>, ps: Seq<Seq<char>>| folded_value(k, ps))));
            }
            i += 1;
        }
        proof {
            assert(all.take(all.len() as int) =~= all);
        }
    }
}

/// Clone a vector of strings, keeping its view.
pub fn clone_string_vec(v: &Vec<String>) -> (r: Vec<String>)
    ensures
        r@ == v@,
{
    let mut r: Vec<String> = Vec::new();
    let mut i: usize = 0;
    while i < v.len()
        invariant
            i <= v@.len(),
            r@ == v@.take(i as int),
        decreases v@.len() - i,
    {
        r.push(v[i].clone());
        proof {
            assert(r@ =~= v@.take(i + 1));
        }
        i += 1;
    }
    proof {
        assert(v@.take(v@.len() as int) =~= v@);
    }
    r
}

/// The staged paths a folded field value carries: a scalar path counts as
/// a one-element list, anything that is not a path field as none.
pub open spec fn paths_of_value(v: ValueModel) -> Seq<Seq<char>> {
    match v {
        ValueModel::Str(s) => seq![s],
        ValueModel::StrList(l) => l,
        _ => Seq::<Seq<char>>::empty(),
    }
}

impl FieldMap {
    /// The string under `name`, when the field is a string.
    pub fn get_string(&self, name: &str) -> (r: Option<String>)
        requires
            self.inv(),
        ensures
            r is Some <==> self@.dom().contains(name@) && self@[name@] is Str,
            r matches Some(s) ==> self@[name@] == ValueModel::Str(s@),
    {
        match self.get(name) {
            Some(FieldValue::Str(s)) => Some(s.clone()),
            _ => None,
        }
    }

    /// The staged paths under `name`: a scalar path, a list, or nothing.
    pub fn get_paths(&self, name: &str) -> (r: Vec<String>)
        requires
            self.inv(),
        ensures
            crate::text::str_views(r@) == if self@.dom().contains(name@) {
                paths_of_value(self@[name@])
            } else {
                Seq::<Seq<char>>::empty()
            },
    {
        match self.get(name) {
            Some(FieldValue::Str(s)) => {
                let mut r: Vec<String> = Vec::new();
                r.push(s.clone());
                proof {
                    assert(str_views(r@) =~= paths_of_value(self@[name@]));
                }
                r
            },
            Some(FieldValue::StrList(l)) => {
                let r = clone_string_vec(l);
                proof {
                    assert(str_views(r@) =~= paths_of_value(self@[name@]));
                }
                r
            },
            Some(_) => {
                let r: Vec<String> = Vec::new();
                proof {
                    assert(str_views(r@) =~= Seq::<Seq<char>>::empty());
                }
                r
            },
            None => {
                let r: Vec<String> = Vec::new();
                proof {
                    assert(str_views(r@) =~= Seq::<Seq<char>>::empty());
                }
                r
            },
        }
    }

    /// The boolean under `name`, when the field was a bare boolean word.
    pub fn get_bool(&self, name: &str) -> (r: Option<bool>)
        requires
            self.inv(),
        ensures
            r is Some <==> self@.dom().contains(name@) && self@[name@] is Bool,
            r matches Some(b) ==> self@[name@] == ValueModel::Bool(b),
    {
        match self.get(name) {
            Some(FieldValue::Bool(b)) => Some(*b),
            _ => None,
        }
    }

    /// The 32-bit integer under `name`, when the field was an integer in
    /// range.
    pub fn get_i32(&self, name: &str) -> (r: Option<i32>)
        requires
            self.inv(),
        ensures
            r is Some <==> (self@.dom().contains(name@)
                && (self@[name@] matches ValueModel::Int(v) && i32::MIN <= v <= i32::MAX)),
            r matches Some(n) ==> self@[name@] == ValueModel::Int(n as i64),
    {
        match self.get(name) {
            Some(FieldValue::Int(v)) => {
                let v = *v;
                if -2147483648i64 <= v && v <= 2147483647i64 {
                    Some(v as i32)
                } else {
                    None
                }
            },
            _ => None,
        }
    }

    /// The timestamp under `name`, when the field parsed as a datetime.
    pub fn get_datetime(&self, name: &str) -> (r: Option<crate::timefmt::Timestamp>)
        requires
            self.inv(),
        ensures
            r is Some <==> self@.dom().contains(name@) && self@[name@] is DateTime,
            r matches Some(t) ==> self@[name@] == ValueModel::DateTime(t.secs),
    {
        match self.get(name) {
            Some(FieldValue::DateTime(t)) => Some(*t),
            _ => None,
        }
    }
}


/// Accumulating a sequence of staged paths, one at a time.
pub open spec fn add_paths_spec(
    m: Map<Seq<char>, Seq<Seq<char>>>,
    k: Seq<char>,
    ps: Seq<Seq<char>>,
) -> Map<Seq<char>, Seq<Seq<char>>>
    decreases ps.len(),
{
    if ps.len() == 0 {
        m
    } else {
        add_path_spec(add_paths_spec(m, k, ps.drop_last()), k, ps.last())
    }
}

/// A list of two or more distinct staged paths recorded under a plural
/// field name comes out of the folded field map exactly in submission
/// order, with no duplicates: the multi-valued field round-trip.
pub proof fn lemma_plural_field_round_trip(
    fields: Map<Seq<char>, ValueModel>,
    files: Map<Seq<char>, Seq<Seq<char>>>,
    k: Seq<char>,
    ps: Seq<Seq<char>>,
)
    requires
        is_multi_name(k),
        !files.dom().contains(k),
        ps.len() >= 2,
        forall|i: int, j: int| 0 <= i < j < ps.len() ==> ps[i] != ps[j],
    ensures
        ({
            let folded = fields.union_prefer_right(add_paths_spec(files, k, ps).map_entries(
                |n: Seq<char>, qs: Seq<Seq<char>>| folded_value(n, qs)));
            &&& folded.dom().contains(k)
            &&& folded[k] == ValueModel::StrList(ps)
        }),
{
    lemma_distinct_paths_accumulate(files, k, ps);
}

/// Distinct staged paths recorded under one fresh field name come back out
/// exactly in submission order, with no duplicates: the multi-valued
/// field round-trip.
pub proof fn lemma_distinct_paths_accumulate(
    m: Map<Seq<char>, Seq<Seq<char>>>,
    k: Seq<char>,
    ps: Seq<Seq<char>>,
)
    requires
        !m.dom().contains(k),
        ps.len() >= 1,
        forall|i: int, j: int| 0 <= i < j < ps.len() ==> ps[i] != ps[j],
    ensures
        add_paths_spec(m, k, ps).dom().contains(k),
        add_paths_spec(m, k, ps)[k] == ps,
    decreases ps.len(),
{
    if ps.len() == 1 {
        assert(add_paths_spec(m, k, ps.drop_last()) == m);
        assert(add_paths_spec(m, k, ps)[k] =~= ps);
    } else {
        lemma_distinct_paths_accumulate(m, k, ps.drop_last());
        let before = add_paths_spec(m, k, ps.drop_last());
        assert(!before[k].contains(ps.last())) by {
            if before[k].contains(ps.last()) {
                let w = choose|w: int| 0 <= w < before[k].len() && before[k][w] == ps.last();
                assert(ps.drop_last()[w] == ps[w]);
                assert(ps[w] == ps[ps.len() - 1]);
            }
        }
        assert(add_paths_spec(m, k, ps)[k] =~= ps);
    }
}

} // verus!
