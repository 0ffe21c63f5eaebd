//! Fresh identifiers.
//!
//! Every entity and every stored asset is named by a freshly generated
//! identifier; the row stores it and the asset directory layout is keyed
//! by it.

use vstd::prelude::*;
use crate::text::contains_ch;
use crate::paths::is_under;

verus! {

/// The characters a rendered identifier may contain.
pub open spec fn is_uuid_char(c: char) -> bool {
    ('0' <= c && c <= '9') || ('a' <= c && c <= 'f') || c == '-'
}

/// The shape of a rendered identifier: 36 lowercase hexadecimal digits
/// and hyphens.
pub open spec fn uuid_like(s: Seq<char>) -> bool {
    s.len() == 36 && forall|i: int| 0 <= i < s.len() ==> is_uuid_char(#[trigger] s[i])
}

/// Relies on `uuid::Uuid::new_v4` and its `Display` rendering: a fresh
/// random identifier as 36 lowercase hexadecimal characters and hyphens.
/// Nothing is promised about which identifier comes back.
#[verifier::external_body]
pub fn new_uuid_string() -> (r: String)
    ensures
        uuid_like(r@),
{
    uuid::Uuid::new_v4().to_string()
}

/// An identifier contains no path or list punctuation, so the paths and
/// joined columns built from it keep their shape.
pub proof fn lemma_uuid_char_free(s: Seq<char>)
    requires
        uuid_like(s),
    ensures
        !contains_ch(s, '/'),
        !contains_ch(s, ','),
        !contains_ch(s, '.'),
        s.len() > 0,
{
}

/// Two staging directories named by distinct fresh identifiers are
/// disjoint: no path lies under both, so concurrent ingestions never
/// observe one another's files.
pub proof fn lemma_staging_isolation_fresh(
    root: Seq<char>,
    id1: Seq<char>,
    id2: Seq<char>,
    p: Seq<char>,
)
    requires
        uuid_like(id1),
        uuid_like(id2),
        id1 != id2,
    ensures
        !(is_under(p, root + seq!['/'] + id1) && is_under(p, root + seq!['/'] + id2)),
{
    lemma_uuid_char_free(id1);
    lemma_uuid_char_free(id2);
    crate::paths::lemma_staging_isolation(root, id1, id2, p);
}

} // verus!
