//! Character-sequence utilities: splitting, joining, prefix tests.
//!
//! Row columns store multi-valued asset paths as one delimiter-joined
//! string; responses explode them back into lists.  The split and join
//! here are the two halves of that codec, specified over `Seq<char>`.

use vstd::prelude::*;

verus! {

/// The pieces of `s` between occurrences of `sep`, in order.
/// An empty sequence splits to one empty piece, matching how the
/// row codec reads an empty column.
pub open spec fn split_on(s: Seq<char>, sep: char) -> Seq<Seq<char>>
    decreases s.len(),
{
    if s.len() == 0 {
        seq![Seq::<char>::empty()]
    } else if s[0] == sep {
        seq![Seq::<char>::empty()] + split_on(s.drop_first(), sep)
    } else {
        let rest = split_on(s.drop_first(), sep);
        seq![seq![s[0]] + rest[0]] + rest.drop_first()
    }
}

/// The pieces joined back together with `sep` between neighbours.
pub open spec fn join_with(parts: Seq<Seq<char>>, sep: char) -> Seq<char>
    decreases parts.len(),
{
    if parts.len() == 0 {
        Seq::<char>::empty()
    } else if parts.len() == 1 {
        parts[0]
    } else {
        parts[0] + seq![sep] + join_with(parts.drop_first(), sep)
    }
}

pub open spec fn contains_ch(s: Seq<char>, c: char) -> bool {
    exists|i: int| 0 <= i < s.len() && s[i] == c
}

pub open spec fn is_prefix_of(p: Seq<char>, s: Seq<char>) -> bool {
    p.len() <= s.len() && s.subrange(0, p.len() as int) == p
}

/// The views of a sequence of owned strings.
pub open spec fn str_views(v: Seq<String>) -> Seq<Seq<char>> {
    v.map_values(|s: String| s@)
}

/// Splitting never yields zero pieces.
pub proof fn lemma_split_len(s: Seq<char>, sep: char)
    ensures
        split_on(s, sep).len() >= 1,
    decreases s.len(),
{
    if s.len() == 0 {
    } else if s[0] == sep {
        lemma_split_len(s.drop_first(), sep);
    } else {
        lemma_split_len(s.drop_first(), sep);
    }
}

/// A sequence free of the separator splits to exactly itself.
pub proof fn lemma_split_sep_free(s: Seq<char>, sep: char)
    requires
        !contains_ch(s, sep),
    ensures
        split_on(s, sep) =~~= seq![s],
    decreases s.len(),
{
    if s.len() == 0 {
        assert(split_on(s, sep) =~~= seq![s]);
    } else {
        assert(s[0] != sep);
        assert(!contains_ch(s.drop_first(), sep)) by {
            assert(forall|i: int|
                0 <= i < s.drop_first().len() ==> s.drop_first()[i] == s[i + 1]);
        }
        lemma_split_sep_free(s.drop_first(), sep);
        let rest = split_on(s.drop_first(), sep);
        assert(rest =~~= seq![s.drop_first()]);
        assert(seq![s[0]] + rest[0] =~= s);
        assert(split_on(s, sep) =~~= seq![s]);
    }
}

/// Prepending a separator-free prefix extends the first piece and
/// leaves the remaining pieces alone.
pub proof fn lemma_split_prepend_sep_free(u: Seq<char>, v: Seq<char>, sep: char)
    requires
        !contains_ch(u, sep),
    ensures
        split_on(u + v, sep) =~~=
            seq![u + split_on(v, sep)[0]] + split_on(v, sep).drop_first(),
    decreases u.len(),
{
    lemma_split_len(v, sep);
    if u.len() == 0 {
        assert(u + v =~= v);
        assert(u + split_on(v, sep)[0] =~= split_on(v, sep)[0]);
        assert(split_on(v, sep) =~~=
            seq![split_on(v, sep)[0]] + split_on(v, sep).drop_first());
    } else {
        assert(u[0] != sep);
        assert(!contains_ch(u.drop_first(), sep)) by {
            assert(forall|i: int|
                0 <= i < u.drop_first().len() ==> u.drop_first()[i] == u[i + 1]);
        }
        lemma_split_prepend_sep_free(u.drop_first(), v, sep);
        let w = u + v;
        assert(w[0] == u[0]);
        assert(w.drop_first() =~= u.drop_first() + v);
        let rest = split_on(w.drop_first(), sep);
        assert(rest =~~=
            seq![u.drop_first() + split_on(v, sep)[0]] + split_on(v, sep).drop_first());
        assert(seq![w[0]] + rest[0] =~= u + split_on(v, sep)[0]);
        assert(rest.drop_first() =~~= split_on(v, sep).drop_first());
        assert(split_on(w, sep) =~~=
            seq![u + split_on(v, sep)[0]] + split_on(v, sep).drop_first());
    }
}

/// Splitting a string that begins with the separator yields an empty
/// first piece followed by the split of the remainder.
pub proof fn lemma_split_leading_sep(v: Seq<char>, sep: char)
    ensures
        split_on(seq![sep] + v, sep) =~~= seq![Seq::<char>::empty()] + split_on(v, sep),
{
    let w = seq![sep] + v;
    assert(w[0] == sep);
    assert(w.drop_first() =~= v);
}

/// Joining then splitting returns the original pieces whenever none of
/// them contains the separator: the row codec round-trips.
pub proof fn lemma_split_join(parts: Seq<Seq<char>>, sep: char)
    requires
        parts.len() >= 1,
        forall|i: int| 0 <= i < parts.len() ==> !contains_ch(#[trigger] parts[i], sep),
    ensures
        split_on(join_with(parts, sep), sep) =~~= parts,
    decreases parts.len(),
{
    if parts.len() == 1 {
        lemma_split_sep_free(parts[0], sep);
        assert(join_with(parts, sep) == parts[0]);
        assert(split_on(join_with(parts, sep), sep) =~~= parts);
    } else {
        let tail = parts.drop_first();
        assert(forall|i: int| 0 <= i < tail.len() ==> !contains_ch(#[trigger] tail[i], sep))
            by {
            assert(forall|i: int| 0 <= i < tail.len() ==> tail[i] == parts[i + 1]);
        }
        lemma_split_join(tail, sep);
        let joined_tail = join_with(tail, sep);
        lemma_split_leading_sep(joined_tail, sep);
        lemma_split_prepend_sep_free(parts[0], seq![sep] + joined_tail, sep);
        assert(join_with(parts, sep) =~= parts[0] + (seq![sep] + joined_tail));
        let inner = split_on(seq![sep] + joined_tail, sep);
        assert(inner =~~= seq![Seq::<char>::empty()] + split_on(joined_tail, sep));
        assert(split_on(joined_tail, sep) =~~= tail);
        assert(inner[0] =~= Seq::<char>::empty());
        assert(parts[0] + inner[0] =~= parts[0]);
        assert(inner.drop_first() =~~= tail);
        assert(split_on(join_with(parts, sep), sep) =~~= seq![parts[0]] + tail);
        assert(seq![parts[0]] + tail =~~= parts);
    }
}

/// Filtering strings commutes with filtering their views, for pointwise
/// matching predicates.
pub proof fn lemma_str_views_filter(
    v: Seq<String>,
    p: spec_fn(String) -> bool,
    q: spec_fn(Seq<char>) -> bool,
)
    requires
        forall|s: String| #[trigger] p(s) == q(s@),
    ensures
        str_views(v.filter(p)) =~= str_views(v).filter(q),
    decreases v.len(),
{
    reveal(Seq::filter);
    if v.len() > 0 {
        lemma_str_views_filter(v.drop_last(), p, q);
        assert(str_views(v).drop_last() =~= str_views(v.drop_last()));
        assert(str_views(v).last() == v.last()@);
        if p(v.last()) {
            assert(str_views(v.filter(p))
                =~= str_views(v.drop_last().filter(p)).push(v.last()@));
        }
    }
}

/// Character-by-character string equality.
pub fn str_eq(a: &str, b: &str) -> (r: bool)
    ensures
        r == (a@ == b@),
{
    let na = a.unicode_len();
    let nb = b.unicode_len();
    if na != nb {
        return false;
    }
    let mut i: usize = 0;
    while i < na
        invariant
            na == a@.len(),
            na == b@.len(),
            i <= na,
            forall|j: int| 0 <= j < i ==> a@[j] == b@[j],
        decreases na - i,
    {
        if a.get_char(i) != b.get_char(i) {
            return false;
        }
        i += 1;
    }
    proof {
        assert(a@ =~= b@);
    }
    true
}

/// Does `s` start with `prefix`?
pub fn str_starts_with(s: &str, prefix: &str) -> (r: bool)
    ensures
        r == is_prefix_of(prefix@, s@),
{
    let np = prefix.unicode_len();
    let ns = s.unicode_len();
    if np > ns {
        assert(!is_prefix_of(prefix@, s@));
        return false;
    }
    let mut i: usize = 0;
    while i < np
        invariant
            np == prefix@.len(),
            ns == s@.len(),
            np <= ns,
            i <= np,
            forall|j: int| 0 <= j < i ==> s@[j] == prefix@[j],
        decreases np - i,
    {
        if s.get_char(i) != prefix.get_char(i) {
            assert(s@.subrange(0, np as int)[i as int] != prefix@[i as int]);
            return false;
        }
        i += 1;
    }
    proof {
        assert(s@.subrange(0, np as int) =~= prefix@);
    }
    true
}

/// Does `s` contain the character `c`?
pub fn str_contains_char(s: &str, c: char) -> (r: bool)
    ensures
        r == contains_ch(s@, c),
{
    let n = s.unicode_len();
    let mut i: usize = 0;
    while i < n
        invariant
            n == s@.len(),
            i <= n,
            forall|j: int| 0 <= j < i ==> s@[j] != c,
        decreases n - i,
    {
        if s.get_char(i) == c {
            return true;
        }
        i += 1;
    }
    false
}

/// Split `s` at every occurrence of `sep`.
pub fn split_string(s: &str, sep: char) -> (r: Vec<String>)
    ensures
        str_views(r@) =~~= split_on(s@, sep),
{
    let n = s.unicode_len();
    let mut r: Vec<String> = Vec::new();
    let mut start: usize = 0;
    let mut i: usize = 0;
    proof {
        assert(s@.subrange(0, n as int) =~= s@);
        assert(str_views(r@) =~~= Seq::<Seq<char>>::empty());
    }
    while i < n
        invariant
            n == s@.len(),
            start <= i <= n,
            forall|j: int| start <= j < i ==> s@[j] != sep,
            split_on(s@, sep) =~~= str_views(r@) + split_on(s@.subrange(start as int, n as int), sep),
        decreases n - i,
    {
        if s.get_char(i) == sep {
            let piece = s.substring_char(start, i).to_owned();
            proof {
                let u = s@.subrange(start as int, i as int);
                let v = s@.subrange(i as int, n as int);
                let v2 = s@.subrange(i + 1, n as int);
                assert(!contains_ch(u, sep));
                assert(s@.subrange(start as int, n as int) =~= u + v);
                assert(v =~= seq![sep] + v2);
                lemma_split_prepend_sep_free(u, v, sep);
                lemma_split_leading_sep(v2, sep);
                lemma_split_len(v2, sep);
                assert(split_on(v, sep) =~~= seq![Seq::<char>::empty()] + split_on(v2, sep));
                assert(u + split_on(v, sep)[0] =~= u);
                assert(split_on(v, sep).drop_first() =~~= split_on(v2, sep));
                assert(split_on(s@.subrange(start as int, n as int), sep) =~~=
                    seq![u] + split_on(v2, sep));
                assert(str_views(r@.push(piece)) =~~= str_views(r@) + seq![u]);
            }
            r.push(piece);
            start = i + 1;
        }
        i += 1;
    }
    let piece = s.substring_char(start, n).to_owned();
    proof {
        let u = s@.subrange(start as int, n as int);
        assert(!contains_ch(u, sep));
        lemma_split_sep_free(u, sep);
        assert(str_views(r@.push(piece)) =~~= str_views(r@) + seq![u]);
    }
    r.push(piece);
    r
}

/// Appending one more piece extends the join at its end.
pub proof fn lemma_join_push(parts: Seq<Seq<char>>, sep: char, x: Seq<char>)
    ensures
        parts.len() == 0 ==> join_with(parts.push(x), sep) =~= x,
        parts.len() > 0 ==> join_with(parts.push(x), sep)
            =~= join_with(parts, sep) + seq![sep] + x,
    decreases parts.len(),
{
    let p = parts.push(x);
    if parts.len() == 0 {
        assert(p.len() == 1);
        assert(p[0] == x);
    } else {
        assert(p[0] == parts[0]);
        assert(p.drop_first() =~~= parts.drop_first().push(x));
        lemma_join_push(parts.drop_first(), sep, x);
        if parts.len() == 1 {
            assert(join_with(parts, sep) == parts[0]);
        }
    }
}

/// Join the strings with a one-character separator.
pub fn join_with_sep(parts: &Vec<String>, sep: &str) -> (r: String)
    requires
        sep@.len() == 1,
    ensures
        parts@.len() == 0 ==> r@ =~= Seq::<char>::empty(),
        parts@.len() > 0 ==> r@ == join_with(str_views(parts@), sep@[0]),
{
    let ghost c = sep@[0];
    let mut r = String::new();
    let mut i: usize = 0;
    while i < parts.len()
        invariant
            sep@.len() == 1,
            c == sep@[0],
            i <= parts.len(),
            i == 0 ==> r@ =~= Seq::<char>::empty(),
            i > 0 ==> r@ == join_with(str_views(parts@).take(i as int), c),
        decreases parts.len() - i,
    {
        if i > 0 {
            r.append(sep);
            proof {
                assert(sep@ =~= seq![c]);
            }
        }
        r.append(parts[i].as_str());
        proof {
            let views = str_views(parts@);
            lemma_join_push(views.take(i as int), c, views[i as int]);
            assert(views.take(i as int).push(views[i as int]) =~~= views.take(i + 1));
        }
        i += 1;
    }
    proof {
        if parts@.len() > 0 {
            assert(str_views(parts@).take(parts@.len() as int) =~~= str_views(parts@));
        }
    }
    r
}

} // verus!
