//! Path arithmetic for the asset store.
//!
//! Committed assets live under `data/{album_uuid}/...`; staged uploads live
//! under `{project_root}/tmp/{request_id}/...`.  Everything here is pure
//! string computation: joining segments, taking the last segment, and the
//! prefix test that defines "lives under this directory".

use vstd::prelude::*;
use crate::text::contains_ch;
use crate::text::str_starts_with;

verus! {

/// Relative root under which committed media assets live.
pub fn get_data_directory() -> (r: String)
    ensures
        r@ == "data"@,
{
    "data".to_owned()
}

/// The suffix of `s` after its last occurrence of `sep`; all of `s`
/// when `sep` does not occur.
pub open spec fn last_segment_of(s: Seq<char>, sep: char) -> Seq<char>
    decreases s.len(),
{
    if s.len() == 0 {
        s
    } else if s.last() == sep {
        Seq::<char>::empty()
    } else {
        last_segment_of(s.drop_last(), sep).push(s.last())
    }
}

proof fn lemma_last_segment_suffix(s: Seq<char>, sep: char, k: int)
    requires
        0 <= k <= s.len(),
        forall|j: int| k <= j < s.len() ==> s[j] != sep,
        k == 0 || s[k - 1] == sep,
    ensures
        last_segment_of(s, sep) =~= s.subrange(k, s.len() as int),
    decreases s.len(),
{
    if k == s.len() {
        if s.len() != 0 {
            assert(s.last() == sep);
        }
    } else {
        assert(s.last() != sep);
        let t = s.drop_last();
        lemma_last_segment_suffix(t, sep, k);
        assert(last_segment_of(s, sep) =~= t.subrange(k, t.len() as int).push(s.last()));
    }
}

/// The file-name component of a path: everything after the last `/`.
pub fn get_file_name(path: &str) -> (r: String)
    ensures
        r@ == last_segment_of(path@, '/'),
{
    last_segment(path, '/')
}

/// The extension component of a name: everything after the last `.`.
pub fn extension_of(name: &str) -> (r: String)
    ensures
        r@ == last_segment_of(name@, '.'),
{
    last_segment(name, '.')
}

/// The suffix of `s` after its last occurrence of `sep`.
pub fn last_segment(s: &str, sep: char) -> (r: String)
    ensures
        r@ == last_segment_of(s@, sep),
{
    let n = s.unicode_len();
    let mut k: usize = n;
    while k > 0 && s.get_char(k - 1) != sep
        invariant
            n == s@.len(),
            k <= n,
            forall|j: int| k <= j < n ==> s@[j] != sep,
        decreases k,
    {
        k -= 1;
    }
    proof {
        lemma_last_segment_suffix(s@, sep, k as int);
    }
    s.substring_char(k, n).to_owned()
}

/// `a` and `b` joined by a single `/`.
pub fn path_join(a: &str, b: &str) -> (r: String)
    ensures
        r@ == a@ + seq!['/'] + b@,
{
    proof {
        reveal_strlit("/");
        assert("/"@ =~= seq!['/']);
    }
    let mut r = a.to_owned();
    r.append("/");
    r.append(b);
    r
}

/// `name` with `.ext` appended.
pub fn with_extension(name: &str, ext: &str) -> (r: String)
    ensures
        r@ == name@ + seq!['.'] + ext@,
{
    proof {
        reveal_strlit(".");
        assert("."@ =~= seq!['.']);
    }
    let mut r = name.to_owned();
    r.append(".");
    r.append(ext);
    r
}

/// A path lies under a directory when it continues the directory's name
/// with a `/` and at least one more character.
pub open spec fn is_under(p: Seq<char>, dir: Seq<char>) -> bool {
    p.len() > dir.len() + 1
        && p.subrange(0, dir.len() as int) == dir
        && p[dir.len() as int] == '/'
}

/// Decide whether `p` lies under the directory `dir`.
pub fn path_is_under(p: &str, dir: &str) -> (r: bool)
    ensures
        r == is_under(p@, dir@),
{
    let np = p.unicode_len();
    let nd = dir.unicode_len();
    if np <= nd || np - nd < 2 {
        return false;
    }
    if !str_starts_with(p, dir) {
        return false;
    }
    if p.get_char(nd) != '/' {
        return false;
    }
    true
}

/// The directory component of a path: everything before the last `/`,
/// or nothing when the path has no `/`.
pub open spec fn dir_prefix_of(p: Seq<char>) -> Option<Seq<char>> {
    if contains_ch(p, '/') {
        Some(p.subrange(0, p.len() - last_segment_of(p, '/').len() - 1))
    } else {
        None
    }
}

/// The directory holding the file at `p`.
pub fn get_directory_from_file_path(p: &str) -> (r: Option<String>)
    ensures
        r matches Some(d) ==> dir_prefix_of(p@) matches Some(v) && d@ == v,
        r is None <==> dir_prefix_of(p@) is None,
{
    let n = p.unicode_len();
    let mut k: usize = n;
    while k > 0 && p.get_char(k - 1) != '/'
        invariant
            n == p@.len(),
            k <= n,
            forall|j: int| k <= j < n ==> p@[j] != '/',
        decreases k,
    {
        k -= 1;
    }
    if k == 0 {
        proof {
            assert(!contains_ch(p@, '/'));
        }
        None
    } else {
        proof {
            lemma_last_segment_suffix(p@, '/', k as int);
            assert(contains_ch(p@, '/'));
        }
        Some(p.substring_char(0, k - 1).to_owned())
    }
}

/// Whether every character of `s` is blank space.
pub open spec fn is_blank(s: Seq<char>) -> bool {
    forall|i: int| 0 <= i < s.len() ==> is_space_char(#[trigger] s[i])
}

/// The characters Unicode assigns the White_Space property, written out:
/// what a trimmed string sheds at its ends.
pub open spec fn is_space_char(c: char) -> bool {
    ||| ('\u{0009}' <= c && c <= '\u{000D}')
    ||| c == ' '
    ||| c == '\u{0085}'
    ||| c == '\u{00A0}'
    ||| c == '\u{1680}'
    ||| ('\u{2000}' <= c && c <= '\u{200A}')
    ||| c == '\u{2028}'
    ||| c == '\u{2029}'
    ||| c == '\u{202F}'
    ||| c == '\u{205F}'
    ||| c == '\u{3000}'
}

/// Decide whether one character is blank space.
pub fn char_is_space(c: char) -> (r: bool)
    ensures
        r == is_space_char(c),
{
    ('\u{0009}' <= c && c <= '\u{000D}') || c == ' ' || c == '\u{0085}' || c == '\u{00A0}'
        || c == '\u{1680}' || ('\u{2000}' <= c && c <= '\u{200A}') || c == '\u{2028}'
        || c == '\u{2029}' || c == '\u{202F}' || c == '\u{205F}' || c == '\u{3000}'
}

/// Decide whether `s` is empty or consists of blank space only.
pub fn str_is_blank(s: &str) -> (r: bool)
    ensures
        r == is_blank(s@),
{
    let n = s.unicode_len();
    let mut i: usize = 0;
    while i < n
        invariant
            n == s@.len(),
            i <= n,
            forall|j: int| 0 <= j < i ==> is_space_char(#[trigger] s@[j]),
        decreases n - i,
    {
        if !char_is_space(s.get_char(i)) {
            return false;
        }
        i += 1;
    }
    true
}

/// Whether some string of `v` views to `s`.
pub open spec fn seq_has_string(v: Seq<String>, s: Seq<char>) -> bool {
    exists|i: int| 0 <= i < v.len() && v[i]@ == s
}

/// Decide whether `v` contains a string equal to `s`.
pub fn vec_contains_string(v: &Vec<String>, s: &str) -> (r: bool)
    ensures
        r == seq_has_string(v@, s@),
{
    let mut i: usize = 0;
    while i < v.len()
        invariant
            i <= v@.len(),
            forall|j: int| 0 <= j < i ==> v@[j]@ != s@,
        decreases v@.len() - i,
    {
        if crate::text::str_eq(v[i].as_str(), s) {
            return true;
        }
        i += 1;
    }
    false
}

/// Drop from `original_vec` every string that also occurs in `filter_vec`.
pub fn remove_values_from_vec_string(filter_vec: &Vec<String>, original_vec: &mut Vec<String>)
    ensures
        final(original_vec)@ == old(original_vec)@.filter(
            |s: String| !seq_has_string(filter_vec@, s@)),
{
    let mut kept: Vec<String> = Vec::new();
    let mut i: usize = 0;
    proof {
        reveal_with_fuel(Seq::filter, 1);
        assert(original_vec@.take(0int).filter(|s: String| !seq_has_string(filter_vec@, s@))
            =~= Seq::<String>::empty());
    }
    while i < original_vec.len()
        invariant
            i <= original_vec@.len(),
            kept@ == original_vec@.take(i as int).filter(
                |s: String| !seq_has_string(filter_vec@, s@)),
        decreases original_vec@.len() - i,
    {
        proof {
            assert(original_vec@.take(i + 1).drop_last() =~= original_vec@.take(i as int));
            reveal_with_fuel(Seq::filter, 2);
        }
        if !vec_contains_string(filter_vec, original_vec[i].as_str()) {
            kept.push(original_vec[i].clone());
            proof {
                assert(original_vec@[i as int]@ == kept@.last()@);
                assert(kept@.drop_last() =~= original_vec@.take(i as int).filter(
                    |s: String| !seq_has_string(filter_vec@, s@)));
            }
        }
        i += 1;
    }
    proof {
        assert(original_vec@.take(original_vec@.len() as int) =~= original_vec@);
    }
    *original_vec = kept;
}

/// Keep only the strings that are not blank.
pub fn retain_non_blank(v: &mut Vec<String>)
    ensures
        final(v)@ == old(v)@.filter(|s: String| !is_blank(s@)),
{
    let mut kept: Vec<String> = Vec::new();
    let mut i: usize = 0;
    proof {
        reveal_with_fuel(Seq::filter, 1);
        assert(v@.take(0int).filter(|s: String| !is_blank(s@)) =~= Seq::<String>::empty());
    }
    while i < v.len()
        invariant
            i <= v@.len(),
            kept@ == v@.take(i as int).filter(|s: String| !is_blank(s@)),
        decreases v@.len() - i,
    {
        proof {
            assert(v@.take(i + 1).drop_last() =~= v@.take(i as int));
            reveal_with_fuel(Seq::filter, 2);
        }
        if !str_is_blank(v[i].as_str()) {
            kept.push(v[i].clone());
            proof {
                assert(kept@.drop_last() =~= v@.take(i as int).filter(|s: String| !is_blank(s@)));
            }
        }
        i += 1;
    }
    proof {
        assert(v@.take(v@.len() as int) =~= v@);
    }
    *v = kept;
}

/// Keep only the strings that are not empty.
pub fn retain_non_empty(v: &mut Vec<String>)
    ensures
        final(v)@ == old(v)@.filter(|s: String| s@.len() != 0),
{
    let mut kept: Vec<String> = Vec::new();
    let mut i: usize = 0;
    proof {
        reveal_with_fuel(Seq::filter, 1);
        assert(v@.take(0int).filter(|s: String| s@.len() != 0) =~= Seq::<String>::empty());
    }
    while i < v.len()
        invariant
            i <= v@.len(),
            kept@ == v@.take(i as int).filter(|s: String| s@.len() != 0),
        decreases v@.len() - i,
    {
        proof {
            assert(v@.take(i + 1).drop_last() =~= v@.take(i as int));
            reveal_with_fuel(Seq::filter, 2);
        }
        if v[i].unicode_len() > 0 {
            kept.push(v[i].clone());
            proof {
                assert(kept@.drop_last() =~= v@.take(i as int).filter(
                    |s: String| s@.len() != 0));
            }
        }
        i += 1;
    }
    proof {
        assert(v@.take(v@.len() as int) =~= v@);
    }
    *v = kept;
}

/// Two staging directories with distinct request identifiers are disjoint:
/// no path can lie under both, so concurrent ingestions never observe one
/// another's files.
pub proof fn lemma_staging_isolation(root: Seq<char>, id1: Seq<char>, id2: Seq<char>, p: Seq<char>)
    requires
        id1 != id2,
        !contains_ch(id1, '/'),
        !contains_ch(id2, '/'),
    ensures
        !(is_under(p, root + seq!['/'] + id1) && is_under(p, root + seq!['/'] + id2)),
{
    let d1 = root + seq!['/'] + id1;
    let d2 = root + seq!['/'] + id2;
    if is_under(p, d1) && is_under(p, d2) {
        if d1.len() == d2.len() {
            assert(id1.len() == id2.len());
            assert(p.subrange(0, d1.len() as int) == d1);
            assert(p.subrange(0, d2.len() as int) == d2);
            assert(id1 =~= id2) by {
                assert(forall|i: int| 0 <= i < id1.len()
                    ==> #[trigger] id1[i] == d1[root.len() + 1 + i]
                        && id2[i] == d2[root.len() + 1 + i]);
                assert(forall|i: int| 0 <= i < d1.len()
                    ==> #[trigger] d1[i] == p[i] && d2[i] == p[i]);
            }
        } else if d1.len() < d2.len() {
            lemma_nested_dir_slash(root, id1, id2, p);
        } else {
            lemma_nested_dir_slash(root, id2, id1, p);
        }
    }
}

/// Helper: when one staging directory name is shorter than the other and
/// both prefix the same path, the longer identifier would need to contain
/// a `/`.
proof fn lemma_nested_dir_slash(root: Seq<char>, short_id: Seq<char>, long_id: Seq<char>, p: Seq<char>)
    requires
        root.len() + 1 + short_id.len() < root.len() + 1 + long_id.len(),
        is_under(p, root + seq!['/'] + short_id),
        is_under(p, root + seq!['/'] + long_id),
    ensures
        contains_ch(long_id, '/'),
{
    let d1 = root + seq!['/'] + short_id;
    let d2 = root + seq!['/'] + long_id;
    assert(forall|i: int| 0 <= i < d2.len() ==> #[trigger] d2[i] == p[i]) by {
        assert(forall|i: int| 0 <= i < d2.len()
            ==> #[trigger] p.subrange(0, d2.len() as int)[i] == p[i]);
    }
    assert(p[d1.len() as int] == '/');
    let j = d1.len() - (root.len() + 1);
    assert(short_id.len() <= j < long_id.len());
    assert(long_id[j] == d2[root.len() + 1 + j]);
    assert(long_id[j] == '/');
}

} // verus!
