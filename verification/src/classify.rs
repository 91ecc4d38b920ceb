//! Canonical item identity: a deterministic function of the decoded
//! metadata, or a skip decision.
//!
//! Rules, in order: pet items (a `petInfo` attribute) are keyed by pet name
//! and rarity; enchanted books with exactly one enchantment are keyed by the
//! snake-cased, uppercased first lore line, other books are skipped; every
//! other item is keyed by its extra-attribute id verbatim.

use vstd::prelude::*;
use crate::item::PartialNbt;
use crate::strip::{strip_spec, strip_chars, str_to_chars, chars_to_string};
use convert_case::Casing;

verus! {

/// What `str::to_uppercase` returns; the result depends on the characters
/// alone.
pub uninterp spec fn upper_of(s: Seq<char>) -> Seq<char>;

/// Relies on str::to_uppercase: a pure function of the characters.
#[verifier::external_body]
pub(crate) fn to_upper(s: &String) -> (r: String)
    ensures
        r@ == upper_of(s@),
{
    s.as_str().to_uppercase()
}

/// What convert_case's snake-case conversion returns; the result depends on
/// the characters alone.
pub uninterp spec fn snake_of(s: Seq<char>) -> Seq<char>;

/// Relies on convert_case's Casing::to_case with Case::Snake: a pure
/// function of the characters.
#[verifier::external_body]
pub(crate) fn to_snake(s: &String) -> (r: String)
    ensures
        r@ == snake_of(s@),
{
    s.to_case(convert_case::Case::Snake)
}

/// How many `]` characters `s` holds.
pub open spec fn bracket_count(s: Seq<char>) -> nat
    decreases s.len(),
{
    if s.len() == 0 {
        0
    } else {
        bracket_count(s.drop_last()) + if s.last() == ']' {
            1nat
        } else {
            0nat
        }
    }
}

/// The index of the first `]` in `s`, or `s.len()` if there is none.
pub open spec fn first_bracket(s: Seq<char>) -> int
    decreases s.len(),
{
    if s.len() == 0 {
        0
    } else if s.first() == ']' {
        0
    } else {
        1 + first_bracket(s.drop_first())
    }
}

proof fn lemma_first_bracket_scan(s: Seq<char>, i: int)
    requires
        0 <= i <= s.len(),
        forall|j: int| 0 <= j < i ==> s[j] != ']',
        i < s.len() ==> s[i] == ']',
    ensures
        first_bracket(s) == i,
    decreases s.len(),
{
    if s.len() == 0 {
    } else if s.first() == ']' {
        assert(i == 0);
    } else {
        assert(i >= 1);
        lemma_first_bracket_scan(s.drop_first(), i - 1);
    }
}

/// The bracket count of `s` and the index of its first bracket.
pub fn bracket_scan(s: &Vec<char>) -> (r: (usize, usize))
    ensures
        r.0 == bracket_count(s@),
        r.1 == first_bracket(s@),
        r.1 <= s@.len(),
        r.0 > 0 ==> r.1 < s@.len(),
{
    let mut cnt: usize = 0;
    let mut fb: usize = 0;
    let mut found: bool = false;
    let mut i: usize = 0;
    while i < s.len()
        invariant
            i <= s@.len(),
            cnt == bracket_count(s@.take(i as int)),
            cnt <= i,
            found <==> cnt >= 1,
            found ==> fb < i && s@[fb as int] == ']' && forall|j: int| 0 <= j < fb ==> s@[j] != ']',
            !found ==> fb == i && forall|j: int| 0 <= j < i ==> s@[j] != ']',
        decreases s@.len() - i,
    {
        let c = s[i];
        if c == ']' {
            cnt = cnt + 1;
            if !found {
                found = true;
            }
        } else {
            if !found {
                fb = i + 1;
            }
        }
        i = i + 1;
        proof {
            assert(s@.take(i as int).drop_last() =~= s@.take(i - 1));
        }
    }
    proof {
        assert(s@.take(s@.len() as int) =~= s@);
        if found {
            lemma_first_bracket_scan(s@, fb as int);
        } else {
            lemma_first_bracket_scan(s@, s@.len() as int);
        }
    }
    (cnt, fb)
}

/// The subrange `v[from..to]` as a fresh vector.
pub fn sub_vec(v: &Vec<char>, from: usize, to: usize) -> (r: Vec<char>)
    requires
        from <= to <= v@.len(),
    ensures
        r@ == v@.subrange(from as int, to as int),
{
    let mut r: Vec<char> = Vec::new();
    let mut i: usize = from;
    while i < to
        invariant
            from <= i <= to <= v@.len(),
            r@ == v@.subrange(from as int, i as int),
        decreases to - i,
    {
        r.push(v[i]);
        i = i + 1;
        proof {
            assert(v@.subrange(from as int, i as int) =~= v@.subrange(from as int, i - 1).push(
                v@[i - 1],
            ));
        }
    }
    r
}

/// Every space replaced by an underscore.
pub open spec fn underscore(s: Seq<char>) -> Seq<char> {
    s.map_values(|c: char| if c == ' ' { '_' } else { c })
}

/// Replaces each space character with an underscore.
pub fn underscore_vec(v: &Vec<char>) -> (r: Vec<char>)
    ensures
        r@ == underscore(v@),
{
    let mut r: Vec<char> = Vec::new();
    let mut i: usize = 0;
    while i < v.len()
        invariant
            i <= v@.len(),
            r@ == underscore(v@.take(i as int)),
        decreases v@.len() - i,
    {
        let c = v[i];
        if c == ' ' {
            r.push('_');
        } else {
            r.push(c);
        }
        i = i + 1;
        proof {
            assert(underscore(v@.take(i as int)) =~= underscore(v@.take(i - 1)).push(
                if v@[i - 1] == ' ' {
                    '_'
                } else {
                    v@[i - 1]
                },
            ));
        }
    }
    proof {
        assert(v@.take(v@.len() as int) =~= v@);
    }
    r
}

/// Whether `sub` occurs as a contiguous subsequence of `s`.
pub open spec fn contains_seq(s: Seq<char>, sub: Seq<char>) -> bool {
    exists|i: int|
        0 <= i && i + sub.len() <= s.len() && #[trigger] s.subrange(i, i + sub.len() as int) == sub
}

/// Whether `sub` occurs contiguously in `s`.
pub fn contains_chars(s: &Vec<char>, sub: &Vec<char>) -> (r: bool)
    ensures
        r == contains_seq(s@, sub@),
{
    let m = sub.len();
    if m > s.len() {
        proof {
            assert(!contains_seq(s@, sub@));
        }
        return false;
    }
    if m == 0 {
        proof {
            assert(s@.subrange(0, 0 + sub@.len() as int) =~= sub@);
        }
        return true;
    }
    let n = s.len();
    let mut i: usize = 0;
    while i <= s.len() - m
        invariant
            m == sub@.len() <= s@.len(),
            n == s@.len(),
            i <= s@.len() - m + 1,
            1 <= m,
            forall|k: int|
                0 <= k < i ==> #[trigger] s@.subrange(k, k + sub@.len() as int) != sub@,
        decreases s@.len() - m - i + 1,
    {
        let mut j: usize = 0;
        let mut matched: bool = true;
        while j < m
            invariant
                m == sub@.len(),
                1 <= m,
                n == s@.len(),
                i + m <= n,
                j <= m,
                matched ==> forall|t: int| 0 <= t < j ==> s@[i + t] == sub@[t],
                !matched ==> s@.subrange(i as int, i + m as int) != sub@,
            decreases m - j,
        {
            if s[i + j] != sub[j] {
                proof {
                    assert(s@.subrange(i as int, i + m as int)[j as int] != sub@[j as int]);
                }
                matched = false;
                j = m;
            } else {
                j = j + 1;
            }
        }
        if matched {
            proof {
                assert(s@.subrange(i as int, i + m as int) =~= sub@);
            }
            return true;
        }
        i = i + 1;
    }
    proof {
        assert forall|k: int| 0 <= k && k + sub@.len() <= s@.len() implies #[trigger] s@.subrange(
            k,
            k + sub@.len() as int,
        ) != sub@ by {
            assert(k < i);
        }
    }
    false
}

/// The canonical identity of a decoded item, or `None` for a skip decision.
/// A malformed item (no element, or a missing lore line where one is read)
/// is skipped as well.
pub open spec fn classify_spec(nbt: PartialNbt) -> Option<Seq<char>> {
    if nbt.i@.len() == 0 {
        None
    } else {
        let attr = nbt.i@[0].tag.extra_attributes;
        let disp = nbt.i@[0].tag.display;
        if attr.pet is Some {
            if bracket_count(disp.name@) == 1 {
                if disp.lore@.len() == 0 {
                    None
                } else {
                    Some(
                        "PET:"@ + upper_of(
                            underscore(strip_spec(disp.name@.skip(first_bracket(disp.name@) + 1))),
                        ) + ":"@ + strip_spec(disp.lore@.last()@),
                    )
                }
            } else {
                Some(strip_spec(disp.name@.take(first_bracket(disp.name@))))
            }
        } else if contains_seq(attr.id@, "ENCHANTED_BOOK"@) {
            match attr.enchantments {
                Some(e) => if e@.len() == 1 {
                    if disp.lore@.len() == 0 {
                        None
                    } else {
                        Some(upper_of(snake_of(strip_spec(disp.lore@.first()@))))
                    }
                } else {
                    None
                },
                None => None,
            }
        } else {
            Some(attr.id@)
        }
    }
}

/// Classifies a decoded item into its canonical identity, or decides to
/// skip it.
pub fn classify(nbt: &PartialNbt) -> (r: Option<String>)
    ensures
        match r {
            Some(id) => classify_spec(*nbt) == Some(id@),
            None => classify_spec(*nbt) is None,
        },
{
    if nbt.i.len() == 0 {
        return None;
    }
    let elem = &nbt.i[0];
    if elem.tag.extra_attributes.pet.is_some() {
        let name_chars = str_to_chars(elem.tag.display.name.as_str());
        let (cnt, fb) = bracket_scan(&name_chars);
        if cnt == 1 {
            if elem.tag.display.lore.len() == 0 {
                return None;
            }
            let n = name_chars.len();
            let after = sub_vec(&name_chars, fb + 1, n);
            proof {
                assert(after@ =~= name_chars@.skip(fb + 1));
            }
            let under = underscore_vec(&strip_chars(&after));
            let pet_name = to_upper(&chars_to_string(&under));
            let lore_last = &elem.tag.display.lore[elem.tag.display.lore.len() - 1];
            let rarity = strip_chars(&str_to_chars(lore_last.as_str()));
            let mut out = "PET:".to_owned();
            out.append(pet_name.as_str());
            out.append(":");
            out.append(chars_to_string(&rarity).as_str());
            Some(out)
        } else {
            let before = sub_vec(&name_chars, 0, fb);
            proof {
                assert(before@ =~= name_chars@.take(first_bracket(name_chars@)));
            }
            Some(chars_to_string(&strip_chars(&before)))
        }
    } else {
        let id = &elem.tag.extra_attributes.id;
        let book_marker = str_to_chars("ENCHANTED_BOOK");
        if contains_chars(&str_to_chars(id.as_str()), &book_marker) {
            match &elem.tag.extra_attributes.enchantments {
                None => None,
                Some(e) => {
                    if e.len() != 1 {
                        None
                    } else if elem.tag.display.lore.len() == 0 {
                        None
                    } else {
                        let lore0 = &elem.tag.display.lore[0];
                        let name = chars_to_string(&strip_chars(&str_to_chars(lore0.as_str())));
                        Some(to_upper(&to_snake(&name)))
                    }
                },
            }
        } else {
            Some(id.clone())
        }
    }
}

} // verus!
