//! Character-level text utilities of the search engine: extracting the
//! characters of a string, ASCII lowercasing, substring tests and splitting
//! a query into whitespace-separated terms.

use vstd::prelude::*;
use vstd::string::StrSliceExecFns;

verus! {

/// A Unicode scalar value: what a `char` may hold.
pub open spec fn valid_scalar(v: u32) -> bool {
    v <= 0x10FFFF && !(0xD800 <= v && v <= 0xDFFF)
}

/// Relies on char::from_u32: it returns `Some` of the scalar exactly when
/// the value is a Unicode scalar value, and `None` otherwise.
#[verifier::external_body]
pub fn char_from_u32(v: u32) -> (r: Option<char>)
    ensures
        r == (if valid_scalar(v) {
            Some(v as char)
        } else {
            None::<char>
        }),
{
    char::from_u32(v)
}

/// Relies on String's FromIterator over char: collecting characters yields
/// the string of exactly those characters in order.
#[verifier::external_body]
pub fn string_from_chars(v: &Vec<char>) -> (s: String)
    ensures
        s@ == v@,
{
    v.iter().collect()
}

/// The characters of a string, in order.
pub fn to_chars(s: &str) -> (r: Vec<char>)
    ensures
        r@ == s@,
{
    let n = s.unicode_len();
    let mut r: Vec<char> = Vec::new();
    let mut i: usize = 0;
    while i < n
        invariant
            n == s@.len(),
            i <= n,
            r@ == s@.take(i as int),
        decreases n - i,
    {
        r.push(s.get_char(i));
        proof {
            assert(r@ =~= s@.take(i + 1));
        }
        i = i + 1;
    }
    proof {
        assert(s@.take(n as int) =~= s@);
    }
    r
}

/// An upper-case ASCII letter folded to lower case; anything else kept.
pub open spec fn lower_char(c: char) -> char {
    if 65 <= c as u32 && c as u32 <= 90 {
        ((c as u32) + 32) as char
    } else {
        c
    }
}

/// A character sequence folded to lower case, character by character.
pub open spec fn lower_seq(s: Seq<char>) -> Seq<char> {
    s.map_values(|c: char| lower_char(c))
}

/// One character folded to lower case.
pub fn fold_char(c: char) -> (r: char)
    ensures
        r == lower_char(c),
{
    let v = c as u32;
    if 65 <= v && v <= 90 {
        match char_from_u32(v + 32) {
            Some(l) => l,
            None => c,
        }
    } else {
        c
    }
}

/// A copy of the characters, folded to lower case.
pub fn fold_chars(s: &Vec<char>) -> (r: Vec<char>)
    ensures
        r@ == lower_seq(s@),
{
    let mut r: Vec<char> = Vec::new();
    let mut i: usize = 0;
    while i < s.len()
        invariant
            i <= s@.len(),
            r@ == lower_seq(s@.take(i as int)),
        decreases s@.len() - i,
    {
        r.push(fold_char(s[i]));
        proof {
            assert(r@ =~= lower_seq(s@.take(i + 1)));
        }
        i = i + 1;
    }
    proof {
        assert(s@.take(s@.len() as int) =~= s@);
    }
    r
}

/// The needle occurs in the haystack starting at position `i`.
pub open spec fn matches_at(hay: Seq<char>, needle: Seq<char>, i: int) -> bool {
    &&& 0 <= i
    &&& i + needle.len() <= hay.len()
    &&& hay.subrange(i, i + needle.len()) == needle
}

/// The needle occurs somewhere in the haystack.
pub open spec fn contains_seq(hay: Seq<char>, needle: Seq<char>) -> bool {
    exists|i: int| matches_at(hay, needle, i)
}

/// Whether the needle occurs at exactly position `i`.
pub fn match_at(hay: &Vec<char>, needle: &Vec<char>, i: usize) -> (r: bool)
    requires
        i + needle@.len() <= hay@.len(),
    ensures
        r == matches_at(hay@, needle@, i as int),
{
    let mut j: usize = 0;
    proof {
        assert(hay.len() == hay@.len());
    }
    while j < needle.len()
        invariant
            hay@.len() <= usize::MAX,
            i + needle@.len() <= hay@.len(),
            j <= needle@.len(),
            hay@.subrange(i as int, i + j) =~= needle@.take(j as int),
        decreases needle@.len() - j,
    {
        if hay[i + j] != needle[j] {
            proof {
                assert(!matches_at(hay@, needle@, i as int)) by {
                    if matches_at(hay@, needle@, i as int) {
                        assert(hay@.subrange(i as int, i + needle@.len())[j as int] == needle@[j as int]);
                    }
                }
            }
            return false;
        }
        proof {
            assert(hay@.subrange(i as int, i + j + 1) =~= hay@.subrange(i as int, i + j).push(
                hay@[i + j],
            ));
            assert(needle@.take(j + 1) =~= needle@.take(j as int).push(needle@[j as int]));
        }
        j = j + 1;
    }
    proof {
        assert(needle@.take(needle@.len() as int) =~= needle@);
    }
    true
}

/// Whether the needle occurs as a contiguous run of the haystack.
pub fn contains_chars(hay: &Vec<char>, needle: &Vec<char>) -> (r: bool)
    ensures
        r == contains_seq(hay@, needle@),
{
    if needle.len() == 0 {
        proof {
            assert(hay@.subrange(0, 0) =~= needle@);
            assert(matches_at(hay@, needle@, 0));
        }
        return true;
    }
    if needle.len() > hay.len() {
        proof {
            assert(forall|i: int| !matches_at(hay@, needle@, i));
        }
        return false;
    }
    let last = hay.len() - needle.len();
    let mut i: usize = 0;
    while i <= last
        invariant
            hay@.len() <= usize::MAX,
            needle@.len() >= 1,
            needle@.len() <= hay@.len(),
            last == hay@.len() - needle@.len(),
            i <= last + 1,
            forall|k: int| 0 <= k < i ==> !matches_at(hay@, needle@, k),
        decreases last + 1 - i,
    {
        if match_at(hay, needle, i) {
            return true;
        }
        i = i + 1;
    }
    proof {
        assert(forall|k: int| k > last ==> !matches_at(hay@, needle@, k));
    }
    false
}

/// Length of the leading run of non-space characters.
pub open spec fn word_prefix_len(s: Seq<char>) -> int
    decreases s.len(),
{
    if s.len() == 0 {
        0
    } else if s[0] == ' ' {
        0
    } else {
        1 + word_prefix_len(s.drop_first())
    }
}

/// The leading word length never exceeds the text, and stops at the first
/// space.
pub proof fn lemma_word_prefix_len(s: Seq<char>)
    ensures
        0 <= word_prefix_len(s) <= s.len(),
        forall|k: int| 0 <= k < word_prefix_len(s) ==> s[k] != ' ',
        word_prefix_len(s) < s.len() ==> s[word_prefix_len(s)] == ' ',
    decreases s.len(),
{
    if s.len() == 0 {
    } else if s[0] == ' ' {
    } else {
        lemma_word_prefix_len(s.drop_first());
        assert(forall|k: int| 1 <= k < s.len() ==> s[k] == s.drop_first()[k - 1]);
    }
}

/// The query text split at spaces: its maximal non-space runs, in order.
pub open spec fn split_ws(s: Seq<char>) -> Seq<Seq<char>>
    decreases s.len(),
    via split_ws_decreases
{
    if s.len() == 0 {
        Seq::empty()
    } else if s[0] == ' ' {
        split_ws(s.drop_first())
    } else {
        seq![s.take(word_prefix_len(s))] + split_ws(s.skip(word_prefix_len(s)))
    }
}

#[via_fn]
proof fn split_ws_decreases(s: Seq<char>) {
    lemma_word_prefix_len(s);
}

/// The whitespace-separated terms of the text, in order.
pub fn split_terms(s: &Vec<char>) -> (r: Vec<Vec<char>>)
    ensures
        r@.map_values(|t: Vec<char>| t@) == split_ws(s@),
{
    let s_len = s.len();
    let mut r: Vec<Vec<char>> = Vec::new();
    let mut i: usize = 0;
    proof {
        assert(s@.skip(0) =~= s@);
        assert(r@.map_values(|t: Vec<char>| t@) =~= Seq::<Seq<char>>::empty());
    }
    while i < s_len
        invariant
            s_len == s@.len(),
            i <= s_len,
            split_ws(s@) == r@.map_values(|t: Vec<char>| t@) + split_ws(s@.skip(i as int)),
        decreases s_len - i,
    {
        if s[i] == ' ' {
            proof {
                assert(s@.skip(i as int)[0] == s@[i as int]);
                assert(s@.skip(i as int).drop_first() =~= s@.skip(i + 1));
            }
            i = i + 1;
        } else {
            let ghost rest = s@.skip(i as int);
            let start = i;
            let mut w: Vec<char> = Vec::new();
            while i < s_len && s[i] != ' '
                invariant
                    s_len == s@.len(),
                    start <= i <= s_len,
                    w@ == s@.subrange(start as int, i as int),
                    forall|k: int| start <= k < i ==> s@[k] != ' ',
                decreases s_len - i,
            {
                w.push(s[i]);
                proof {
                    assert(w@ =~= s@.subrange(start as int, i + 1));
                }
                i = i + 1;
            }
            proof {
                // The scanned run is exactly the leading word of `rest`.
                lemma_word_prefix_len(rest);
                assert(forall|k: int| 0 <= k < rest.len() ==> rest[k] == s@[start + k]);
                assert(forall|k: int| 0 <= k < i - start ==> rest[k] != ' ');
                if i < s_len {
                    assert(rest[i - start] == ' ');
                    assert(word_prefix_len(rest) == i - start) by {
                        if word_prefix_len(rest) < i - start {
                            assert(rest[word_prefix_len(rest)] != ' ');
                        }
                        if word_prefix_len(rest) > i - start {
                            assert(rest[i - start] != ' ');
                        }
                    }
                } else {
                    assert(word_prefix_len(rest) == i - start) by {
                        if word_prefix_len(rest) < i - start {
                            assert(rest[word_prefix_len(rest)] != ' ');
                        }
                    }
                }
                assert(rest.take(word_prefix_len(rest)) =~= w@);
                assert(rest.skip(word_prefix_len(rest)) =~= s@.skip(i as int));
                assert(rest[0] != ' ');
                assert(split_ws(rest) == seq![w@] + split_ws(s@.skip(i as int)));
            }
            let ghost r_map0 = r@.map_values(|t: Vec<char>| t@);
            r.push(w);
            proof {
                assert(r@.map_values(|t: Vec<char>| t@) =~= r_map0.push(w@));
                assert(r_map0.push(w@) + split_ws(s@.skip(i as int)) =~= r_map0 + (seq![w@]
                    + split_ws(s@.skip(i as int))));
            }
        }
    }
    proof {
        assert(s@.skip(s_len as int) =~= Seq::<char>::empty());
        assert(r@.map_values(|t: Vec<char>| t@) + split_ws(s@.skip(s_len as int)) =~= r@.map_values(
            |t: Vec<char>| t@,
        ));
    }
    r
}

/// The text with every occurrence of the tag removed, scanning left to
/// right; an empty tag removes nothing.
pub open spec fn strip_tag(s: Seq<char>, tag: Seq<char>) -> Seq<char>
    decreases s.len(),
{
    if tag.len() == 0 || s.len() == 0 {
        s
    } else if matches_at(s, tag, 0) {
        strip_tag(s.skip(tag.len() as int), tag)
    } else {
        seq![s[0]] + strip_tag(s.drop_first(), tag)
    }
}

/// A copy of the text with every occurrence of the tag removed, scanning
/// left to right.
pub fn strip_tag_exec(s: &Vec<char>, tag: &Vec<char>) -> (r: Vec<char>)
    ensures
        r@ == strip_tag(s@, tag@),
{
    if tag.len() == 0 {
        let r = crate::index::engine::copy_vals(s);
        return r;
    }
    let s_len = s.len();
    let mut out: Vec<char> = Vec::new();
    let mut i: usize = 0;
    proof {
        assert(s@.skip(0) =~= s@);
        assert(out@ =~= Seq::<char>::empty());
        assert(out@ + strip_tag(s@.skip(0), tag@) =~= strip_tag(s@, tag@));
    }
    while i < s_len
        invariant
            s_len == s@.len(),
            tag@.len() >= 1,
            i <= s_len,
            out@ + strip_tag(s@.skip(i as int), tag@) == strip_tag(s@, tag@),
        decreases s_len - i,
    {
        let ghost rest = s@.skip(i as int);
        let hit = if tag.len() <= s_len - i {
            match_at(s, tag, i)
        } else {
            false
        };
        proof {
            assert(forall|k: int| 0 <= k < rest.len() ==> rest[k] == s@[i + k]);
            if hit {
                assert(rest.subrange(0, tag@.len() as int) =~= s@.subrange(
                    i as int,
                    i + tag@.len(),
                ));
                assert(matches_at(rest, tag@, 0));
            } else {
                assert(!matches_at(rest, tag@, 0)) by {
                    if matches_at(rest, tag@, 0) {
                        assert(s@.subrange(i as int, i + tag@.len()) =~= rest.subrange(
                            0,
                            tag@.len() as int,
                        ));
                        assert(matches_at(s@, tag@, i as int));
                    }
                }
            }
        }
        if hit {
            proof {
                assert(rest.skip(tag@.len() as int) =~= s@.skip(i + tag@.len()));
                assert(strip_tag(rest, tag@) == strip_tag(s@.skip(i + tag@.len()), tag@));
            }
            i = i + tag.len();
        } else {
            let ghost o0 = out@;
            out.push(s[i]);
            proof {
                assert(rest[0] == s@[i as int]);
                assert(rest.drop_first() =~= s@.skip(i + 1));
                assert(strip_tag(rest, tag@) == seq![s@[i as int]] + strip_tag(
                    s@.skip(i + 1),
                    tag@,
                ));
                assert(out@ =~= o0.push(s@[i as int]));
                assert(o0.push(s@[i as int]) + strip_tag(s@.skip(i + 1), tag@) =~= o0 + (seq![
                    s@[i as int]
                ] + strip_tag(s@.skip(i + 1), tag@)));
            }
            i = i + 1;
        }
    }
    proof {
        assert(s@.skip(s_len as int) =~= Seq::<char>::empty());
        assert(strip_tag(s@.skip(s_len as int), tag@) == Seq::<char>::empty());
        assert(out@ + Seq::<char>::empty() =~= out@);
    }
    out
}

/// The text with every space written as its percent escape.
pub open spec fn escape_spaces(s: Seq<char>) -> Seq<char>
    decreases s.len(),
{
    if s.len() == 0 {
        s
    } else {
        (if s[0] == ' ' {
            seq!['%', '2', '0']
        } else {
            seq![s[0]]
        }) + escape_spaces(s.drop_first())
    }
}

/// A copy of the text with every space written as its percent escape.
pub fn escape_spaces_exec(s: &Vec<char>) -> (r: Vec<char>)
    ensures
        r@ == escape_spaces(s@),
{
    let s_len = s.len();
    let mut out: Vec<char> = Vec::new();
    let mut i: usize = 0;
    proof {
        assert(s@.skip(0) =~= s@);
        assert(out@ + escape_spaces(s@.skip(0)) =~= escape_spaces(s@));
    }
    while i < s_len
        invariant
            s_len == s@.len(),
            i <= s_len,
            out@ + escape_spaces(s@.skip(i as int)) == escape_spaces(s@),
        decreases s_len - i,
    {
        let ghost rest = s@.skip(i as int);
        let ghost o0 = out@;
        proof {
            assert(rest[0] == s@[i as int]);
            assert(rest.drop_first() =~= s@.skip(i + 1));
        }
        if s[i] == ' ' {
            out.push('%');
            out.push('2');
            out.push('0');
            proof {
                assert(out@ =~= o0 + seq!['%', '2', '0']);
                assert(o0 + seq!['%', '2', '0'] + escape_spaces(s@.skip(i + 1)) =~= o0 + (seq![
                    '%',
                    '2',
                    '0',
                ] + escape_spaces(s@.skip(i + 1))));
            }
        } else {
            out.push(s[i]);
            proof {
                assert(out@ =~= o0 + seq![s@[i as int]]);
                assert(o0 + seq![s@[i as int]] + escape_spaces(s@.skip(i + 1)) =~= o0 + (seq![
                    s@[i as int]
                ] + escape_spaces(s@.skip(i + 1))));
            }
        }
        i = i + 1;
    }
    proof {
        assert(s@.skip(s_len as int) =~= Seq::<char>::empty());
        assert(out@ + Seq::<char>::empty() =~= out@);
    }
    out
}

} // verus!
