//! Version-string normalization: a single leading caret range marker is
//! stripped; every other form is passed through verbatim.

use vstd::prelude::*;

verus! {

/// The canonical form of a raw version string: if it begins with the single
/// character `^`, the remainder; otherwise the string unchanged.
pub open spec fn norm_spec(s: Seq<char>) -> Seq<char> {
    if s.len() > 0 && s[0] == '^' {
        s.drop_first()
    } else {
        s
    }
}

/// A version string is normalized when it carries no leading caret marker.
pub open spec fn is_normalized(s: Seq<char>) -> bool {
    norm_spec(s) == s
}

/// Strips one leading `^` from a version string, if present.
pub fn strip_caret(version: &str) -> (r: &str)
    ensures
        r@ == norm_spec(version@),
{
    let n: usize = version.unicode_len();
    if n > 0 && version.get_char(0) == '^' {
        let r = version.substring_char(1, n);
        proof {
            assert(r@ =~= norm_spec(version@));
        }
        r
    } else {
        version
    }
}

/// Normalization is idempotent, for every version string that does not open
/// with a doubled caret (stripping one marker from such a string still
/// leaves a leading caret behind).
pub proof fn lemma_normalize_idempotent(s: Seq<char>)
    requires
        s.len() < 2 || s[0] != '^' || s[1] != '^',
    ensures
        norm_spec(norm_spec(s)) == norm_spec(s),
{
    if s.len() > 0 && s[0] == '^' {
        let r = s.drop_first();
        if r.len() > 0 {
            assert(r[0] == s[1]);
        }
    }
}

/// Prefixing a caret-free version with `^` and normalizing gives back the
/// bare version.
pub proof fn lemma_normalize_strips_caret(v: Seq<char>)
    requires
        v.len() == 0 || v[0] != '^',
    ensures
        norm_spec(seq!['^'].add(v)) == v,
{
    let s = seq!['^'].add(v);
    assert(s[0] == '^');
    assert(s.drop_first() =~= v);
}

} // verus!
