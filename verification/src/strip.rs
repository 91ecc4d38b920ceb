//! The markup-stripping rule: keep only alphabetic characters and
//! whitespace, trim surrounding whitespace, then peel leading lowercase
//! characters (the remnant a formatting code leaves behind).

use vstd::prelude::*;

verus! {

/// Whether `char::is_alphabetic` holds of `c`; the result depends on the
/// character alone.
pub uninterp spec fn is_alpha(c: char) -> bool;

/// Whether `char::is_whitespace` holds of `c`; the result depends on the
/// character alone.
pub uninterp spec fn is_space(c: char) -> bool;

/// Whether `char::is_lowercase` holds of `c`; the result depends on the
/// character alone.
pub uninterp spec fn is_lower(c: char) -> bool;

/// Relies on char::is_alphabetic: a pure predicate on the character.
#[verifier::external_body]
pub(crate) fn char_is_alphabetic(c: char) -> (r: bool)
    ensures
        r == is_alpha(c),
{
    c.is_alphabetic()
}

/// Relies on char::is_whitespace: a pure predicate on the character.
#[verifier::external_body]
pub(crate) fn char_is_whitespace(c: char) -> (r: bool)
    ensures
        r == is_space(c),
{
    c.is_whitespace()
}

/// Relies on char::is_lowercase: a pure predicate on the character.
#[verifier::external_body]
pub(crate) fn char_is_lowercase(c: char) -> (r: bool)
    ensures
        r == is_lower(c),
{
    c.is_lowercase()
}

/// Relies on String::from_iter over chars: the resulting string holds
/// exactly the given characters in order.
#[verifier::external_body]
pub(crate) fn chars_to_string(v: &Vec<char>) -> (r: String)
    ensures
        r@ == v@,
{
    v.iter().collect()
}

/// The characters of `s`, in order.
pub fn str_to_chars(s: &str) -> (r: Vec<char>)
    ensures
        r@ == s@,
{
    let n = s.unicode_len();
    let mut r: Vec<char> = Vec::new();
    let mut i: usize = 0;
    while i < n
        invariant
            n == s@.len(),
            i <= n,
            r@ == s@.take(i as int),
        decreases n - i,
    {
        r.push(s.get_char(i));
        i = i + 1;
        proof {
            assert(s@.take(i as int) =~= s@.take(i - 1).push(s@[i - 1]));
        }
    }
    proof {
        assert(s@.take(n as int) =~= s@);
    }
    r
}

/// The subsequence of `s` whose characters are alphabetic or whitespace.
pub open spec fn keep_clean(s: Seq<char>) -> Seq<char>
    decreases s.len(),
{
    if s.len() == 0 {
        Seq::empty()
    } else {
        let rest = keep_clean(s.drop_last());
        if is_alpha(s.last()) || is_space(s.last()) {
            rest.push(s.last())
        } else {
            rest
        }
    }
}

/// `s` without leading whitespace.
pub open spec fn trim_front(s: Seq<char>) -> Seq<char>
    decreases s.len(),
{
    if s.len() > 0 && is_space(s.first()) {
        trim_front(s.drop_first())
    } else {
        s
    }
}

/// `s` without trailing whitespace.
pub open spec fn trim_back(s: Seq<char>) -> Seq<char>
    decreases s.len(),
{
    if s.len() > 0 && is_space(s.last()) {
        trim_back(s.drop_last())
    } else {
        s
    }
}

/// `s` without surrounding whitespace.
pub open spec fn trim_spec(s: Seq<char>) -> Seq<char> {
    trim_front(trim_back(s))
}

/// `s` without its longest lowercase prefix.
pub open spec fn drop_lower(s: Seq<char>) -> Seq<char>
    decreases s.len(),
{
    if s.len() > 0 && is_lower(s.first()) {
        drop_lower(s.drop_first())
    } else {
        s
    }
}

/// The markup-stripping rule on a character sequence.
pub open spec fn strip_spec(s: Seq<char>) -> Seq<char> {
    drop_lower(trim_spec(keep_clean(s)))
}

/// The stripping rule on a vector of characters.
pub fn strip_chars(s: &Vec<char>) -> (r: Vec<char>)
    ensures
        r@ == strip_spec(s@),
{
    let mut kept: Vec<char> = Vec::new();
    let mut i: usize = 0;
    while i < s.len()
        invariant
            i <= s@.len(),
            kept@ == keep_clean(s@.take(i as int)),
        decreases s@.len() - i,
    {
        let c = s[i];
        if char_is_alphabetic(c) || char_is_whitespace(c) {
            kept.push(c);
        }
        i = i + 1;
        proof {
            assert(s@.take(i as int).drop_last() =~= s@.take(i - 1));
        }
    }
    proof {
        assert(s@.take(s@.len() as int) =~= s@);
    }
    // trim trailing whitespace
    let mut hi: usize = kept.len();
    proof {
        assert(kept@.take(hi as int) =~= kept@);
    }
    while hi > 0 && char_is_whitespace(kept[hi - 1])
        invariant
            hi <= kept@.len(),
            trim_back(kept@) == trim_back(kept@.take(hi as int)),
        decreases hi,
    {
        proof {
            assert(kept@.take(hi as int).drop_last() =~= kept@.take(hi - 1));
        }
        hi = hi - 1;
    }
    proof {
        assert(trim_back(kept@.take(hi as int)) == kept@.take(hi as int));
        assert(kept@.take(hi as int).skip(0) =~= kept@.take(hi as int));
    }
    // trim leading whitespace
    let mut lo: usize = 0;
    while lo < hi && char_is_whitespace(kept[lo])
        invariant
            lo <= hi <= kept@.len(),
            trim_front(kept@.take(hi as int)) == trim_front(kept@.take(hi as int).skip(lo as int)),
        decreases hi - lo,
    {
        proof {
            let t = kept@.take(hi as int);
            assert(t.skip(lo as int).drop_first() =~= t.skip(lo + 1));
        }
        lo = lo + 1;
    }
    proof {
        let t = kept@.take(hi as int);
        assert(trim_front(t.skip(lo as int)) == t.skip(lo as int));
        assert(trim_spec(kept@) == t.skip(lo as int));
    }
    // peel leading lowercase characters
    while lo < hi && char_is_lowercase(kept[lo])
        invariant
            lo <= hi <= kept@.len(),
            drop_lower(trim_spec(kept@)) == drop_lower(kept@.take(hi as int).skip(lo as int)),
        decreases hi - lo,
    {
        proof {
            let t = kept@.take(hi as int);
            assert(t.skip(lo as int).drop_first() =~= t.skip(lo + 1));
        }
        lo = lo + 1;
    }
    let mut r: Vec<char> = Vec::new();
    let mut j: usize = lo;
    while j < hi
        invariant
            lo <= j <= hi <= kept@.len(),
            r@ == kept@.take(hi as int).skip(lo as int).take(j - lo),
        decreases hi - j,
    {
        r.push(kept[j]);
        j = j + 1;
        proof {
            let piece = kept@.take(hi as int).skip(lo as int);
            assert(piece.take(j - lo) =~= piece.take(j - lo - 1).push(kept@[j - 1]));
        }
    }
    proof {
        let piece = kept@.take(hi as int).skip(lo as int);
        assert(piece.take(piece.len() as int) =~= piece);
        assert(drop_lower(piece) == piece);
    }
    r
}

/// The markup-stripping rule: keep only alphabetic and whitespace
/// characters, trim surrounding whitespace, then drop leading characters
/// while the first remaining one is lowercase.
pub fn remove_color_codes(s: String) -> (r: String)
    ensures
        r@ == strip_spec(s@),
{
    let chars = str_to_chars(s.as_str());
    let stripped = strip_chars(&chars);
    chars_to_string(&stripped)
}

/// A sequence is clean when it holds only alphabetic or whitespace
/// characters, carries no surrounding whitespace, and does not start with
/// a lowercase character.
pub open spec fn clean(s: Seq<char>) -> bool {
    &&& forall|i: int| 0 <= i < s.len() ==> is_alpha(#[trigger] s[i]) || is_space(s[i])
    &&& (s.len() > 0 ==> !is_space(s.first()) && !is_space(s.last()))
    &&& (s.len() > 0 ==> !is_lower(s.first()))
}

proof fn lemma_keep_clean_identity(s: Seq<char>)
    requires
        forall|i: int| 0 <= i < s.len() ==> is_alpha(#[trigger] s[i]) || is_space(s[i]),
    ensures
        keep_clean(s) == s,
    decreases s.len(),
{
    if s.len() > 0 {
        lemma_keep_clean_identity(s.drop_last());
        assert(keep_clean(s.drop_last()).push(s.last()) =~= s);
    }
}

/// The stripping rule leaves a clean sequence unchanged.
pub proof fn lemma_strip_clean_identity(s: Seq<char>)
    requires
        clean(s),
    ensures
        strip_spec(s) == s,
{
    lemma_keep_clean_identity(s);
    assert(trim_back(s) == s);
    assert(trim_front(s) == s);
    assert(drop_lower(s) == s);
}

} // verus!
