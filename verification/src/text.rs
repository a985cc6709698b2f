//! Verified text primitives: substring search, leftmost non-overlapping
//! replacement, first-token extraction and word joining. The source adapters
//! state their extraction rules in terms of these.

use vstd::prelude::*;
use vstd::string::*;

verus! {

/// `needle` occurs in `hay` starting at character position `i`.
pub open spec fn matches_at(hay: Seq<char>, needle: Seq<char>, i: int) -> bool {
    0 <= i && i + needle.len() <= hay.len() && hay.subrange(i, i + needle.len()) == needle
}

/// `needle` occurs somewhere in `hay`.
pub open spec fn contains_seq(hay: Seq<char>, needle: Seq<char>) -> bool {
    exists|i: int| matches_at(hay, needle, i)
}

/// Whether `needle` stands at character position `i` of `hay`.
fn occurs_at(hay: &str, needle: &str, i: usize) -> (r: bool)
    requires
        i + needle@.len() <= hay@.len(),
    ensures
        r == matches_at(hay@, needle@, i as int),
{
    let hn = hay.unicode_len();
    let n = needle.unicode_len();
    let mut j: usize = 0;
    while j < n
        invariant
            hn == hay@.len(),
            n == needle@.len(),
            i + n <= hn,
            j <= n,
            forall|k: int| 0 <= k < j ==> hay@[i + k] == needle@[k],
        decreases n - j,
    {
        if hay.get_char(i + j) != needle.get_char(j) {
            assert(hay@.subrange(i as int, i + n) != needle@) by {
                assert(hay@.subrange(i as int, i + n)[j as int] == hay@[i + j]);
            }
            return false;
        }
        j += 1;
    }
    assert(hay@.subrange(i as int, i + n) =~= needle@);
    true
}

/// Substring search: whether `needle` occurs anywhere in `hay`.
pub fn contains_sub(hay: &str, needle: &str) -> (r: bool)
    ensures
        r == contains_seq(hay@, needle@),
{
    let hn = hay.unicode_len();
    let n = needle.unicode_len();
    if n > hn {
        assert forall|i: int| !matches_at(hay@, needle@, i) by {}
        return false;
    }
    if n == 0 {
        assert(matches_at(hay@, needle@, 0)) by {
            assert(hay@.subrange(0, 0) =~= needle@);
        }
        return true;
    }
    let mut i: usize = 0;
    while i <= hn - n
        invariant
            hn == hay@.len(),
            n == needle@.len(),
            1 <= n <= hn,
            i <= hn - n + 1,
            forall|k: int| 0 <= k < i ==> !matches_at(hay@, needle@, k),
        decreases hn - n - i + 1,
    {
        if occurs_at(hay, needle, i) {
            return true;
        }
        i += 1;
    }
    assert forall|k: int| !matches_at(hay@, needle@, k) by {}
    false
}

/// Character-wise string equality.
pub fn str_eq(a: &str, b: &str) -> (r: bool)
    ensures
        r == (a@ == b@),
{
    let an = a.unicode_len();
    let bn = b.unicode_len();
    if an != bn {
        return false;
    }
    let mut i: usize = 0;
    while i < an
        invariant
            an == a@.len(),
            an == b@.len(),
            i <= an,
            forall|k: int| 0 <= k < i ==> a@[k] == b@[k],
        decreases an - i,
    {
        if a.get_char(i) != b.get_char(i) {
            return false;
        }
        i += 1;
    }
    assert(a@ =~= b@);
    true
}

/// Leftmost, non-overlapping replacement of `pat` by `rep`, as a scan from
/// the left. An empty pattern replaces nothing.
pub open spec fn replace_all(s: Seq<char>, pat: Seq<char>, rep: Seq<char>) -> Seq<char>
    decreases s.len(),
{
    if pat.len() == 0 || s.len() == 0 {
        s
    } else if matches_at(s, pat, 0) {
        rep + replace_all(s.subrange(pat.len() as int, s.len() as int), pat, rep)
    } else {
        seq![s[0]] + replace_all(s.drop_first(), pat, rep)
    }
}

/// Replaces every leftmost, non-overlapping occurrence of `pat` in `s` by
/// `rep`.
pub fn replace_sub(s: &str, pat: &str, rep: &str) -> (r: String)
    requires
        pat@.len() >= 1,
    ensures
        r@ == replace_all(s@, pat@, rep@),
{
    let sn = s.unicode_len();
    let pn = pat.unicode_len();
    let mut r = String::new();
    let mut i: usize = 0;
    proof {
        assert(s@.subrange(0, sn as int) =~= s@);
        assert(r@ + replace_all(s@, pat@, rep@) =~= replace_all(s@, pat@, rep@));
    }
    while i < sn
        invariant
            sn == s@.len(),
            pn == pat@.len(),
            pn >= 1,
            i <= sn,
            replace_all(s@, pat@, rep@) == r@ + replace_all(
                s@.subrange(i as int, sn as int),
                pat@,
                rep@,
            ),
        decreases sn - i,
    {
        let ghost suffix = s@.subrange(i as int, sn as int);
        if pn <= sn - i && occurs_at(s, pat, i) {
            r.append(rep);
            proof {
                assert(suffix.subrange(0, pn as int) =~= s@.subrange(i as int, i + pn));
                assert(matches_at(suffix, pat@, 0));
                assert(suffix.subrange(pn as int, suffix.len() as int) =~= s@.subrange(
                    (i + pn) as int,
                    sn as int,
                ));
            }
            i += pn;
        } else {
            let c = s.substring_char(i, i + 1);
            r.append(c);
            proof {
                if i + pn <= sn {
                    assert(suffix.subrange(0, pn as int) =~= s@.subrange(i as int, i + pn));
                    assert(!matches_at(suffix, pat@, 0));
                }
                assert(suffix[0] == s@[i as int]);
                assert(suffix.drop_first() =~= s@.subrange(i + 1, sn as int));
                assert(c@ =~= seq![suffix[0]]);
            }
            i += 1;
        }
    }
    proof {
        assert(s@.subrange(sn as int, sn as int) =~= Seq::<char>::empty());
    }
    r
}

/// The prefix of `s` that stands before the first occurrence of `sep`;
/// all of `s` when `sep` does not occur.
pub open spec fn first_token(s: Seq<char>, sep: char) -> Seq<char>
    decreases s.len(),
{
    if s.len() == 0 {
        s
    } else if s[0] == sep {
        Seq::empty()
    } else {
        seq![s[0]] + first_token(s.drop_first(), sep)
    }
}

/// `first_token` is the prefix that ends at the first separator position.
proof fn lemma_first_token_chars(s: Seq<char>, sep: char, idx: int)
    requires
        0 <= idx <= s.len(),
        forall|k: int| 0 <= k < idx ==> s[k] != sep,
        idx == s.len() || s[idx] == sep,
    ensures
        first_token(s, sep) == s.subrange(0, idx),
    decreases idx,
{
    if idx == 0 {
        if s.len() == 0 {
            assert(first_token(s, sep) =~= s.subrange(0, 0));
        } else {
            assert(s[0] == sep);
            assert(first_token(s, sep) =~= s.subrange(0, 0));
        }
    } else {
        assert(s[0] != sep);
        let t = s.drop_first();
        assert(forall|k: int| 0 <= k < idx - 1 ==> t[k] == s[k + 1] && t[k] != sep);
        if idx < s.len() {
            assert(t[idx - 1] == s[idx]);
        }
        lemma_first_token_chars(t, sep, idx - 1);
        assert(seq![s[0]] + t.subrange(0, idx - 1) =~= s.subrange(0, idx));
    }
}

/// The prefix of `s` before its first space; all of `s` when it has none.
pub fn first_word(s: &str) -> (r: String)
    ensures
        r@ == first_token(s@, ' '),
{
    let n = s.unicode_len();
    let mut idx: usize = 0;
    while idx < n && s.get_char(idx) != ' '
        invariant
            n == s@.len(),
            idx <= n,
            forall|k: int| 0 <= k < idx ==> s@[k] != ' ',
        decreases n - idx,
    {
        idx += 1;
    }
    proof {
        lemma_first_token_chars(s@, ' ', idx as int);
    }
    s.substring_char(0, idx).to_owned()
}

/// The words of `parts` joined by single spaces.
pub open spec fn join_words_spec(parts: Seq<Seq<char>>) -> Seq<char>
    decreases parts.len(),
{
    if parts.len() == 0 {
        Seq::empty()
    } else if parts.len() == 1 {
        parts[0]
    } else {
        join_words_spec(parts.drop_last()) + seq![' '] + parts.last()
    }
}

/// Joins `parts` with a single space between neighbours.
pub fn join_words(parts: &Vec<String>) -> (r: String)
    ensures
        r@ == join_words_spec(parts.deep_view()),
{
    let mut r = String::new();
    let mut i: usize = 0;
    while i < parts.len()
        invariant
            i <= parts.len(),
            r@ == join_words_spec(parts.deep_view().subrange(0, i as int)),
        decreases parts.len() - i,
    {
        if i > 0 {
            r.append(" ");
            proof {
                reveal_strlit(" ");
                assert(" "@ =~= seq![' ']);
            }
        }
        r.append(parts[i].as_str());
        proof {
            let pre = parts.deep_view().subrange(0, i as int);
            let post = parts.deep_view().subrange(0, i + 1);
            assert(post.drop_last() =~= pre);
            assert(post.last() == parts.deep_view()[i as int]);
            if i == 0 {
                assert(post =~= seq![parts.deep_view()[0]]);
                assert(join_words_spec(post) == parts.deep_view()[0]);
                assert(r@ =~= parts.deep_view()[0]);
            }
        }
        i += 1;
    }
    proof {
        assert(parts.deep_view().subrange(0, parts.deep_view().len() as int) =~= parts.deep_view());
    }
    r
}

} // verus!
