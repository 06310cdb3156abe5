//! Small verified text utilities: equality, case folding and substring
//! search, used by the listing filters and id lookups.

use vstd::prelude::*;

verus! {

/// What `str::to_lowercase` returns for this text.
pub uninterp spec fn lowered(s: Seq<char>) -> Seq<char>;

/// Relies on `str::to_lowercase`: the folded text depends on the characters
/// alone, and the empty string folds to the empty string.
#[verifier::external_body]
pub fn to_lower(s: &str) -> (r: String)
    ensures
        r@ == lowered(s@),
        s@.len() == 0 ==> r@.len() == 0,
{
    s.to_lowercase()
}

/// Character-for-character equality of two texts.
pub fn str_eq(a: &str, b: &str) -> (r: bool)
    ensures
        r == (a@ == b@),
{
    let n = a.unicode_len();
    if n != b.unicode_len() {
        return false;
    }
    let mut i: usize = 0;
    while i < n
        invariant
            i <= n,
            n == a@.len(),
            n == b@.len(),
            forall|j: int| 0 <= j < i ==> a@[j] == b@[j],
        decreases n - i,
    {
        if a.get_char(i) != b.get_char(i) {
            return false;
        }
        i = i + 1;
    }
    proof {
        assert(a@ =~= b@);
    }
    true
}

/// The text with leading spaces removed.
pub open spec fn trim_front(s: Seq<char>) -> Seq<char>
    decreases s.len(),
{
    if s.len() > 0 && s[0] == ' ' {
        trim_front(s.drop_first())
    } else {
        s
    }
}

/// The text with trailing spaces removed.
pub open spec fn trim_back(s: Seq<char>) -> Seq<char>
    decreases s.len(),
{
    if s.len() > 0 && s.last() == ' ' {
        trim_back(s.drop_last())
    } else {
        s
    }
}

/// The text with surrounding spaces removed.
pub open spec fn trimmed(s: Seq<char>) -> Seq<char> {
    trim_back(trim_front(s))
}

/// The comma-separated pieces of the text from position `j` on, with
/// `cur` the piece read so far.
pub open spec fn split_from(s: Seq<char>, j: int, cur: Seq<char>) -> Seq<Seq<char>>
    decreases s.len() - j,
{
    if j < 0 || j >= s.len() {
        seq![cur]
    } else if s[j] == ',' {
        seq![cur] + split_from(s, j + 1, Seq::empty())
    } else {
        split_from(s, j + 1, cur.push(s[j]))
    }
}

/// The comma-separated pieces of the text.
pub open spec fn split_commas(s: Seq<char>) -> Seq<Seq<char>> {
    split_from(s, 0, Seq::empty())
}

/// The comma-separated pieces of the text, each with surrounding spaces
/// removed: how a comma-separated filter value is read.
pub open spec fn list_tokens(s: Seq<char>) -> Seq<Seq<char>> {
    split_commas(s).map_values(|t: Seq<char>| trimmed(t))
}

/// Removes surrounding spaces.
pub fn trim_spaces(s: &str) -> (r: &str)
    ensures
        r@ == trimmed(s@),
{
    let n = s.unicode_len();
    let mut i: usize = 0;
    proof {
        assert(s@.skip(0) =~= s@);
    }
    while i < n && s.get_char(i) == ' '
        invariant
            i <= n,
            n == s@.len(),
            trim_front(s@) == trim_front(s@.skip(i as int)),
        decreases n - i,
    {
        proof {
            let t = s@.skip(i as int);
            assert(t.len() > 0 && t[0] == ' ');
            assert(t.drop_first() =~= s@.skip(i as int + 1));
        }
        i = i + 1;
    }
    proof {
        let t = s@.skip(i as int);
        if i < n {
            assert(t[0] != ' ');
        }
        assert(trim_front(s@) == t);
    }
    let mut j: usize = n;
    while j > i && s.get_char(j - 1) == ' '
        invariant
            i <= j <= n,
            n == s@.len(),
            trim_front(s@) == s@.skip(i as int),
            trim_back(s@.skip(i as int)) == trim_back(s@.subrange(i as int, j as int)),
        decreases j,
    {
        proof {
            let t = s@.subrange(i as int, j as int);
            assert(t.len() > 0 && t.last() == ' ');
            assert(t.drop_last() =~= s@.subrange(i as int, j as int - 1));
        }
        j = j - 1;
    }
    proof {
        let t = s@.subrange(i as int, j as int);
        if j > i {
            assert(t.last() != ' ');
        }
        assert(trim_back(t) == t);
        assert(s@.skip(i as int) =~= s@.subrange(i as int, n as int));
    }
    s.substring_char(i, j)
}

/// Splits the text at commas and trims each piece.
pub fn split_trimmed(s: &str) -> (r: Vec<String>)
    ensures
        r@.map_values(|x: String| x@) == list_tokens(s@),
{
    let n = s.unicode_len();
    let mut r: Vec<String> = Vec::new();
    let mut start: usize = 0;
    let mut i: usize = 0;
    proof {
        assert(s@.subrange(0, 0) =~= Seq::<char>::empty());
    }
    while i < n
        invariant
            start <= i <= n,
            n == s@.len(),
            list_tokens(s@) =~= r@.map_values(|x: String| x@) + split_from(
                s@,
                i as int,
                s@.subrange(start as int, i as int),
            ).map_values(|t: Seq<char>| trimmed(t)),
        decreases n - i,
    {
        let ghost cur = s@.subrange(start as int, i as int);
        if s.get_char(i) == ',' {
            let piece = trim_spaces(s.substring_char(start, i));
            r.push(piece.to_owned());
            proof {
                assert(split_from(s@, i as int, cur) == seq![cur] + split_from(
                    s@,
                    i as int + 1,
                    Seq::<char>::empty(),
                ));
                assert((seq![cur] + split_from(s@, i as int + 1, Seq::<char>::empty())).map_values(
                    |t: Seq<char>| trimmed(t),
                ) =~= seq![trimmed(cur)] + split_from(
                    s@,
                    i as int + 1,
                    Seq::<char>::empty(),
                ).map_values(|t: Seq<char>| trimmed(t)));
                assert(r@.map_values(|x: String| x@) =~= r@.map_values(|x: String| x@).subrange(
                    0,
                    r@.len() - 1,
                ) + seq![trimmed(cur)]);
                assert(s@.subrange(i as int + 1, i as int + 1) =~= Seq::<char>::empty());
            }
            start = i + 1;
        } else {
            proof {
                assert(split_from(s@, i as int, cur) == split_from(
                    s@,
                    i as int + 1,
                    cur.push(s@[i as int]),
                ));
                assert(cur.push(s@[i as int]) =~= s@.subrange(start as int, i as int + 1));
            }
        }
        i = i + 1;
    }
    let piece = trim_spaces(s.substring_char(start, n));
    r.push(piece.to_owned());
    proof {
        let ghost cur = s@.subrange(start as int, n as int);
        assert(split_from(s@, n as int, cur) == seq![cur]);
        assert(seq![cur].map_values(|t: Seq<char>| trimmed(t)) =~= seq![trimmed(cur)]);
        assert(r@.map_values(|x: String| x@) =~= r@.map_values(|x: String| x@).subrange(
            0,
            r@.len() - 1,
        ) + seq![trimmed(cur)]);
        assert(r@.map_values(|x: String| x@) =~= list_tokens(s@));
    }
    r
}

/// The needle occurs contiguously somewhere in the haystack. The empty
/// needle occurs in every text.
pub open spec fn has_substring(hay: Seq<char>, needle: Seq<char>) -> bool {
    exists|i: int|
        0 <= i <= hay.len() - needle.len() && #[trigger] hay.subrange(i, i + needle.len())
            == needle
}

/// Substring search by direct comparison at every offset.
pub fn contains_text(hay: &str, needle: &str) -> (r: bool)
    ensures
        r == has_substring(hay@, needle@),
{
    let hn = hay.unicode_len();
    let nn = needle.unicode_len();
    if nn > hn {
        return false;
    }
    let mut i: usize = 0;
    while i <= hn - nn
        invariant
            nn <= hn,
            hn == hay@.len(),
            nn == needle@.len(),
            i <= hn - nn + 1,
            forall|k: int| 0 <= k < i ==> #[trigger] hay@.subrange(k, k + nn as int) != needle@,
        decreases hn - nn - i + 1,
    {
        let mut j: usize = 0;
        while j < nn && hay.get_char(i + j) == needle.get_char(j)
            invariant
                i + nn <= hn,
                hn == hay@.len(),
                nn == needle@.len(),
                j <= nn,
                forall|k: int| 0 <= k < j ==> hay@[i as int + k] == needle@[k],
            decreases nn - j,
        {
            j = j + 1;
        }
        if j == nn {
            proof {
                assert(hay@.subrange(i as int, i as int + nn as int) =~= needle@);
            }
            return true;
        }
        proof {
            assert(hay@.subrange(i as int, i as int + nn as int)[j as int] != needle@[j as int]);
        }
        i = i + 1;
    }
    proof {
        assert forall|k: int| 0 <= k <= hay@.len() - needle@.len() implies #[trigger] hay@.subrange(
            k,
            k + needle@.len(),
        ) != needle@ by {
            assert(0 <= k < i);
            assert(hay@.subrange(k, k + nn as int) != needle@);
        }
    }
    false
}

} // verus!
