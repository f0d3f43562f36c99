//! Stripping the anti-hijacking prefix `for (;;);` from response text:
//! every occurrence is removed, scanning left to right.

use vstd::prelude::*;

use crate::text::push_char;
use crate::text::to_chars;

verus! {

/// The literal the upstream service prepends to defeat naive evaluation.
pub open spec fn hijack_prefix() -> Seq<char> {
    seq!['f', 'o', 'r', ' ', '(', ';', ';', ')', ';']
}

/// The prefix occurs in `s` starting at position `i`.
pub open spec fn hijack_at(s: Seq<char>, i: int) -> bool {
    &&& 0 <= i
    &&& i + hijack_prefix().len() <= s.len()
    &&& s.subrange(i, i + hijack_prefix().len() as int) == hijack_prefix()
}

/// The prefix occurs somewhere in `s`.
pub open spec fn contains_hijack(s: Seq<char>) -> bool {
    exists|i: int| hijack_at(s, i)
}

/// `s` with every occurrence of the prefix removed, leftmost first: scan the
/// text once, skipping the prefix wherever it starts and keeping every other
/// character.
pub open spec fn strip_spec(s: Seq<char>) -> Seq<char>
    decreases s.len(),
{
    if s.len() == 0 {
        Seq::empty()
    } else if hijack_at(s, 0) {
        strip_spec(s.skip(hijack_prefix().len() as int))
    } else {
        seq![s[0]] + strip_spec(s.skip(1))
    }
}

/// Removes every occurrence of the anti-hijacking prefix from `text`; text
/// without the prefix passes through unchanged. Always succeeds.
pub fn normalize_response(text: &str) -> (r: String)
    ensures
        r@ == strip_spec(text@),
{
    let s = to_chars(text);
    let n = s.len();
    let mut out = String::new();
    let mut i: usize = 0;
    proof {
        assert(s@.skip(0) =~= s@);
        assert(out@ + strip_spec(s@) =~= strip_spec(s@));
    }
    while i < n
        invariant
            s@ == text@,
            n == s@.len(),
            i <= n,
            out@ + strip_spec(s@.skip(i as int)) == strip_spec(s@),
        decreases n - i,
    {
        if hijack_match_at(&s, i) {
            proof {
                let tail = s@.skip(i as int);
                assert(hijack_at(tail, 0)) by {
                    assert(tail.subrange(0, hijack_prefix().len() as int) =~= s@.subrange(
                        i as int,
                        i + hijack_prefix().len(),
                    ));
                }
                assert(tail.skip(hijack_prefix().len() as int) =~= s@.skip(
                    i + hijack_prefix().len(),
                ));
            }
            i = i + 9;
        } else {
            proof {
                let tail = s@.skip(i as int);
                if i < n {
                    assert(tail.len() > 0);
                    assert(!hijack_at(tail, 0)) by {
                        if hijack_at(tail, 0) {
                            assert(s@.subrange(i as int, i + hijack_prefix().len()) =~= tail
                                .subrange(0, hijack_prefix().len() as int));
                        }
                    }
                    assert(tail[0] == s@[i as int]);
                    assert(tail.skip(1) =~= s@.skip(i + 1));
                }
            }
            let c = s[i];
            push_char(&mut out, c);
            proof {
                assert(out@ + strip_spec(s@.skip(i + 1)) =~= strip_spec(s@));
            }
            i = i + 1;
        }
    }
    proof {
        assert(s@.skip(n as int) =~= Seq::<char>::empty());
        assert(out@ =~= strip_spec(s@));
    }
    out
}

/// Whether the prefix occurs at position `i` of `s`.
fn hijack_match_at(s: &Vec<char>, i: usize) -> (r: bool)
    requires
        i <= s@.len(),
    ensures
        r == hijack_at(s@, i as int),
{
    let n = s.len();
    if n - i < 9 {
        return false;
    }
    let p: Vec<char> = vec!['f', 'o', 'r', ' ', '(', ';', ';', ')', ';'];
    proof {
        assert(p@ =~= hijack_prefix());
    }
    let mut k: usize = 0;
    while k < 9
        invariant
            n == s@.len(),
            p@ == hijack_prefix(),
            i + 9 <= n,
            k <= 9,
            forall|j: int| 0 <= j < k ==> s@[i + j] == p@[j],
        decreases 9 - k,
    {
        if s[i + k] != p[k] {
            proof {
                assert(s@.subrange(i as int, i + 9)[k as int] != hijack_prefix()[k as int]);
            }
            return false;
        }
        k = k + 1;
    }
    proof {
        assert(s@.subrange(i as int, i + 9) =~= hijack_prefix());
    }
    true
}

/// On text without the prefix, the normalizer changes nothing.
pub proof fn lemma_strip_no_hijack(s: Seq<char>)
    requires
        !contains_hijack(s),
    ensures
        strip_spec(s) == s,
    decreases s.len(),
{
    if s.len() > 0 {
        assert(!hijack_at(s, 0)) by {
            if hijack_at(s, 0) {
                assert(contains_hijack(s));
            }
        }
        assert(!contains_hijack(s.skip(1))) by {
            if contains_hijack(s.skip(1)) {
                let i = choose|i: int| hijack_at(s.skip(1), i);
                assert(s.subrange(i + 1, i + 1 + hijack_prefix().len()) =~= s.skip(1).subrange(
                    i,
                    i + hijack_prefix().len(),
                ));
                assert(hijack_at(s, i + 1));
            }
        }
        lemma_strip_no_hijack(s.skip(1));
        assert(strip_spec(s) =~= s);
    }
}

/// The normalizer is idempotent: stripping already-stripped text changes
/// nothing further. This holds exactly where the first pass left no
/// occurrence of the prefix behind; removing an occurrence can splice a new
/// one together out of its surroundings, and on such text a second pass still
/// finds work to do.
pub proof fn lemma_strip_idempotent(s: Seq<char>)
    requires
        !contains_hijack(strip_spec(s)),
    ensures
        strip_spec(strip_spec(s)) == strip_spec(s),
{
    lemma_strip_no_hijack(strip_spec(s));
}

} // verus!
