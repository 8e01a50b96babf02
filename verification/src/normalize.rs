//! Name normalization: stripping version-comparison suffixes from dependency
//! tokens, so that `"glibc>=2.25"` and `"glibc"` refer to the same package.

use vstd::prelude::*;

verus! {

/// True when `c` marks the start of a version comparison in a dependency token.
pub open spec fn is_version_marker(c: char) -> bool {
    c == '=' || c == '>'
}

/// True when no character of `s` is a version-comparison marker.
pub open spec fn marker_free(s: Seq<char>) -> bool {
    forall|j: int| 0 <= j < s.len() ==> !is_version_marker(s[j])
}

/// A normalized dependency token: its longest marker-free prefix —
/// everything up to (and excluding) the first `=` or `>`, or the whole token
/// when neither occurs.
pub open spec fn strip_spec(s: Seq<char>) -> Seq<char>
    decreases s.len(),
{
    if s.len() == 0 {
        s
    } else if is_version_marker(s[0]) {
        Seq::empty()
    } else {
        seq![s[0]] + strip_spec(s.drop_first())
    }
}

/// The set of normalized names of a set of raw dependency tokens.
pub open spec fn normalized_set(s: Set<Seq<char>>) -> Set<Seq<char>> {
    Set::new(|n: Seq<char>| exists|d: Seq<char>| #[trigger] s.contains(d) && n == strip_spec(d))
}

/// `strip_spec(s)` is the prefix of `s` before its first marker: any `i`
/// bounding a marker-free prefix, with a marker at `i` unless the whole
/// string is marker-free, locates it.
proof fn lemma_strip_spec_prefix(s: Seq<char>, i: int)
    requires
        0 <= i <= s.len(),
        forall|j: int| 0 <= j < i ==> !is_version_marker(s[j]),
        i < s.len() ==> is_version_marker(s[i]),
    ensures
        strip_spec(s) == s.subrange(0, i),
    decreases s.len(),
{
    if s.len() == 0 {
        assert(s.subrange(0, 0) =~= s);
    } else if is_version_marker(s[0]) {
        assert(i == 0);
        assert(s.subrange(0, 0) =~= Seq::<char>::empty());
    } else {
        assert(i >= 1);
        lemma_strip_spec_prefix(s.drop_first(), i - 1);
        assert(seq![s[0]] + s.drop_first().subrange(0, i - 1) =~= s.subrange(0, i));
    }
}

/// Strip version demands from a dependency string.
///
/// The result is the longest marker-free prefix of the input: everything up to
/// (and excluding) the first `=` or `>`, or the whole input when neither
/// occurs. The split is on single characters, so `"glibc>=2.25"` becomes
/// `"glibc"` by splitting at the `>`.
pub fn strip_version(stri: &str) -> (r: String)
    ensures
        r@ == strip_spec(stri@),
        r@.len() <= stri@.len(),
        r@ == stri@.subrange(0, r@.len() as int),
        marker_free(r@),
        r@.len() < stri@.len() ==> is_version_marker(stri@[r@.len() as int]),
        marker_free(stri@) ==> r@ == stri@,
{
    let n = stri.unicode_len();
    let mut i: usize = 0;
    while i < n
        invariant
            i <= n,
            n == stri@.len(),
            forall|j: int| 0 <= j < i ==> !is_version_marker(stri@[j]),
        decreases n - i,
    {
        let c = stri.get_char(i);
        if c == '=' || c == '>' {
            let prefix = stri.substring_char(0, i);
            proof {
                assert(forall|j: int| 0 <= j < i ==> prefix@[j] == stri@[j]);
                lemma_strip_spec_prefix(stri@, i as int);
            }
            return prefix.to_owned();
        }
        i += 1;
    }
    proof {
        lemma_strip_spec_prefix(stri@, stri@.len() as int);
        assert(stri@.subrange(0, stri@.len() as int) =~= stri@);
    }
    stri.to_owned()
}

} // verus!
