//! Pulling a page identifier out of raw HTML: find the literal marker
//! `[{"pageID":"`, then take everything up to the next double quote.

use vstd::prelude::*;
use vstd::string::StrSliceExecFns;

use crate::error::TotemError;
use crate::text::to_chars;

verus! {

/// The literal marker that precedes a page identifier in the HTML.
pub open spec fn page_id_marker() -> Seq<char> {
    seq!['[', '{', '"', 'p', 'a', 'g', 'e', 'I', 'D', '"', ':', '"']
}

/// The marker occurs in `s` starting at position `i`.
pub open spec fn marker_at(s: Seq<char>, i: int) -> bool {
    &&& 0 <= i
    &&& i + page_id_marker().len() <= s.len()
    &&& s.subrange(i, i + page_id_marker().len() as int) == page_id_marker()
}

/// The marker occurs somewhere in `s`.
pub open spec fn has_marker(s: Seq<char>) -> bool {
    exists|i: int| marker_at(s, i)
}

/// The position of the first occurrence of the marker at or after `i`.
pub open spec fn find_marker_from(s: Seq<char>, i: int) -> Option<int>
    decreases s.len() - i,
{
    if i + page_id_marker().len() > s.len() {
        None
    } else if marker_at(s, i) {
        Some(i)
    } else {
        find_marker_from(s, i + 1)
    }
}

/// The position of the first occurrence of character `c` at or after `i`.
pub open spec fn find_char_from(s: Seq<char>, i: int, c: char) -> Option<int>
    decreases s.len() - i,
{
    if i >= s.len() {
        None
    } else if s[i] == c {
        Some(i)
    } else {
        find_char_from(s, i + 1, c)
    }
}

/// What extraction yields on `s`: the span between the end of the first
/// marker occurrence and the next double quote, or nothing where either the
/// marker or the quote is absent. The span may be empty.
pub open spec fn extract_spec(s: Seq<char>) -> Option<Seq<char>> {
    match find_marker_from(s, 0) {
        None => None,
        Some(m) => {
            let start = m + page_id_marker().len() as int;
            match find_char_from(s, start, '"') {
                None => None,
                Some(e) => Some(s.subrange(start, e)),
            }
        },
    }
}

proof fn lemma_find_marker_hit(s: Seq<char>, i: int, p: int)
    requires
        0 <= i <= p,
        marker_at(s, p),
        forall|j: int| i <= j < p ==> !marker_at(s, j),
    ensures
        find_marker_from(s, i) == Some(p),
    decreases p - i,
{
    if i < p {
        lemma_find_marker_hit(s, i + 1, p);
    }
}

proof fn lemma_find_marker_none(s: Seq<char>, i: int)
    requires
        0 <= i,
        forall|j: int| i <= j ==> !marker_at(s, j),
    ensures
        find_marker_from(s, i) is None,
    decreases s.len() - i,
{
    if i + page_id_marker().len() <= s.len() {
        lemma_find_marker_none(s, i + 1);
    }
}

proof fn lemma_find_char_hit(s: Seq<char>, i: int, p: int, c: char)
    requires
        0 <= i <= p < s.len(),
        s[p] == c,
        forall|j: int| i <= j < p ==> s[j] != c,
    ensures
        find_char_from(s, i, c) == Some(p),
    decreases p - i,
{
    if i < p {
        lemma_find_char_hit(s, i + 1, p, c);
    }
}

proof fn lemma_find_char_none(s: Seq<char>, i: int, c: char)
    requires
        0 <= i,
        forall|j: int| i <= j < s.len() ==> s[j] != c,
    ensures
        find_char_from(s, i, c) is None,
    decreases s.len() - i,
{
    if i < s.len() {
        lemma_find_char_none(s, i + 1, c);
    }
}

/// The marker, as executable characters.
fn marker_chars() -> (r: Vec<char>)
    ensures
        r@ == page_id_marker(),
{
    let r: Vec<char> = vec!['[', '{', '"', 'p', 'a', 'g', 'e', 'I', 'D', '"', ':', '"'];
    proof {
        assert(r@ =~= page_id_marker());
    }
    r
}

/// Whether the marker occurs at position `i` of `s`.
fn marker_match_at(s: &Vec<char>, marker: &Vec<char>, i: usize) -> (r: bool)
    requires
        marker@ == page_id_marker(),
        i + marker@.len() <= s@.len(),
    ensures
        r == marker_at(s@, i as int),
{
    let n = s.len();
    let mut k: usize = 0;
    while k < marker.len()
        invariant
            n == s@.len(),
            marker@ == page_id_marker(),
            i + marker@.len() <= s@.len(),
            k <= marker@.len(),
            forall|j: int| 0 <= j < k ==> s@[i + j] == marker@[j],
        decreases marker@.len() - k,
    {
        if s[i + k] != marker[k] {
            proof {
                assert(s@.subrange(i as int, i + page_id_marker().len() as int)[k as int]
                    != page_id_marker()[k as int]);
            }
            return false;
        }
        k = k + 1;
    }
    proof {
        assert(s@.subrange(i as int, i + page_id_marker().len() as int) =~= page_id_marker());
    }
    true
}

/// Extracts the page identifier from raw HTML: the text between the first
/// occurrence of the marker and the next double quote. The span may be empty;
/// only an absent marker or an absent closing quote is an error.
pub fn extract_page_id_from_html(html: &str) -> (r: Result<String, TotemError>)
    ensures
        match r {
            Ok(id) => extract_spec(html@) == Some(id@),
            Err(e) => extract_spec(html@) is None && e == TotemError::NotFound,
        },
{
    let s = to_chars(html);
    let n = s.len();
    let marker = marker_chars();
    let mlen = marker.len();
    if n < mlen {
        proof {
            lemma_find_marker_none(html@, 0);
        }
        return Err(TotemError::NotFound);
    }
    let last = n - mlen;
    let mut i: usize = 0;
    let mut found: Option<usize> = None;
    while i <= last && found.is_none()
        invariant
            s@ == html@,
            n == s@.len(),
            mlen == page_id_marker().len(),
            mlen <= n,
            last == n - mlen,
            marker@ == page_id_marker(),
            i <= last + 1,
            match found {
                Some(p) => marker_at(s@, p as int) && p == i && (forall|j: int|
                    0 <= j < p ==> !marker_at(s@, j)),
                None => forall|j: int| 0 <= j < i ==> !marker_at(s@, j),
            },
        decreases last - i + (if found is None { 1int } else { 0int }),
    {
        if marker_match_at(&s, &marker, i) {
            found = Some(i);
        } else {
            i = i + 1;
        }
    }
    match found {
        None => {
            proof {
                assert(forall|j: int| 0 <= j ==> !marker_at(html@, j));
                lemma_find_marker_none(html@, 0);
            }
            Err(TotemError::NotFound)
        },
        Some(m) => {
            proof {
                lemma_find_marker_hit(html@, 0, m as int);
            }
            let start = m + mlen;
            let mut e: usize = start;
            while e < n && s[e] != '"'
                invariant
                    s@ == html@,
                    n == s@.len(),
                    start <= e <= n,
                    forall|j: int| start <= j < e ==> s@[j] != '"',
                decreases n - e,
            {
                e = e + 1;
            }
            if e == n {
                proof {
                    lemma_find_char_none(html@, start as int, '"');
                }
                Err(TotemError::NotFound)
            } else {
                proof {
                    lemma_find_char_hit(html@, start as int, e as int, '"');
                }
                let id = html.substring_char(start, e).to_owned();
                Ok(id)
            }
        },
    }
}

/// For any text that contains the marker followed by a quote-free span and a
/// closing quote, and in which the marker occurs nowhere earlier, extraction
/// returns exactly that span.
pub proof fn lemma_extract_finds_value(pre: Seq<char>, value: Seq<char>, rest: Seq<char>)
    requires
        !value.contains('"'),
        forall|j: int| 0 <= j < pre.len() ==> !marker_at(pre + page_id_marker() + value + seq!['"'] + rest, j),
    ensures
        extract_spec(pre + page_id_marker() + value + seq!['"'] + rest) == Some(value),
{
    let s = pre + page_id_marker() + value + seq!['"'] + rest;
    let m = pre.len() as int;
    let start = m + page_id_marker().len() as int;
    let e = start + value.len() as int;
    assert(s.subrange(m, start) =~= page_id_marker());
    lemma_find_marker_hit(s, 0, m);
    assert forall|j: int| start <= j < e implies s[j] != '"' by {
        assert(s[j] == value[j - start]);
        assert(value.contains(value[j - start]));
    }
    assert(s[e] == '"');
    lemma_find_char_hit(s, start, e, '"');
    assert(s.subrange(start, e) =~= value);
}

/// For any text without the marker, extraction fails.
pub proof fn lemma_extract_without_marker(s: Seq<char>)
    requires
        !has_marker(s),
    ensures
        extract_spec(s) is None,
{
    assert forall|j: int| 0 <= j implies !marker_at(s, j) by {
        if marker_at(s, j) {
            assert(has_marker(s));
        }
    }
    lemma_find_marker_none(s, 0);
}

} // verus!
