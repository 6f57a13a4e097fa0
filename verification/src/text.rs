//! String comparisons.
use vstd::prelude::*;
use vstd::string::{StrSliceExecFns, StringExecFns};

verus! {

/// Whether two strings hold the same characters.
pub(crate) fn str_eq(a: &str, b: &str) -> (r: bool)
    ensures
        r == (a@ == b@),
{
    let n = a.unicode_len();
    if n != b.unicode_len() {
        return false;
    }
    let mut i: usize = 0;
    while i < n
        invariant
            n == a@.len(),
            n == b@.len(),
            i <= n,
            forall|j: int| 0 <= j < i ==> a@[j] == b@[j],
        decreases n - i,
    {
        if a.get_char(i) != b.get_char(i) {
            return false;
        }
        i = i + 1;
    }
    assert(a@ =~= b@);
    true
}

/// Whether the character `c` occurs in `s`.
pub(crate) fn str_contains_char(s: &str, c: char) -> (r: bool)
    ensures
        r == s@.contains(c),
{
    let n = s.unicode_len();
    let mut i: usize = 0;
    while i < n
        invariant
            n == s@.len(),
            i <= n,
            forall|j: int| 0 <= j < i ==> s@[j] != c,
        decreases n - i,
    {
        if s.get_char(i) == c {
            assert(s@[i as int] == c);
            return true;
        }
        i = i + 1;
    }
    false
}

/// Whether the character has Unicode's `White_Space` property: the 25 code points
/// U+0009..=U+000D, U+0020, U+0085, U+00A0, U+1680, U+2000..=U+200A, U+2028,
/// U+2029, U+202F, U+205F and U+3000.
pub open spec fn is_whitespace_char(c: char) -> bool {
    let u = c as u32;
    ||| 0x9 <= u <= 0xD
    ||| u == 0x20
    ||| u == 0x85
    ||| u == 0xA0
    ||| u == 0x1680
    ||| 0x2000 <= u <= 0x200A
    ||| u == 0x2028
    ||| u == 0x2029
    ||| u == 0x202F
    ||| u == 0x205F
    ||| u == 0x3000
}

/// `char::is_whitespace`: true exactly for the characters with the `White_Space`
/// property.
#[verifier::external_body]
pub(crate) fn char_is_whitespace(c: char) -> (r: bool)
    ensures
        r == is_whitespace_char(c),
{
    c.is_whitespace()
}

/// Whether `needle` occurs in `haystack` as a contiguous run of characters.
pub open spec fn contains_text(haystack: Seq<char>, needle: Seq<char>) -> bool {
    exists|i: int|
        0 <= i && i + needle.len() <= haystack.len() && #[trigger] haystack.subrange(
            i,
            i + needle.len(),
        ) == needle
}

/// Whether `needle` occurs in `haystack` as a contiguous run of characters (an
/// empty needle occurs everywhere).
pub(crate) fn str_contains(haystack: &str, needle: &str) -> (r: bool)
    ensures
        r == contains_text(haystack@, needle@),
{
    let h = haystack.unicode_len();
    let m = needle.unicode_len();
    if m > h {
        proof {
            if contains_text(haystack@, needle@) {
                let k = choose|k: int|
                    0 <= k && k + needle@.len() <= haystack@.len() && #[trigger] haystack@.subrange(
                        k,
                        k + needle@.len(),
                    ) == needle@;
            }
        }
        return false;
    }
    if m == 0 {
        assert(haystack@.subrange(0int, 0int + needle@.len()) =~= needle@);
        assert(contains_text(haystack@, needle@));
        return true;
    }
    let mut i: usize = 0;
    while i <= h - m
        invariant
            h == haystack@.len(),
            m == needle@.len(),
            1 <= m <= h,
            i <= h - m + 1,
            forall|k: int|
                0 <= k < i ==> #[trigger] haystack@.subrange(k, k + m) != needle@,
        decreases h - m + 1 - i,
    {
        let mut j: usize = 0;
        let mut matched = true;
        while j < m
            invariant
                h == haystack@.len(),
                m == needle@.len(),
                i + m <= h,
                j <= m,
                matched ==> forall|t: int| 0 <= t < j ==> haystack@[i + t] == needle@[t],
                !matched ==> haystack@.subrange(i as int, i + m) != needle@,
            decreases m - j,
        {
            if matched && haystack.get_char(i + j) != needle.get_char(j) {
                matched = false;
                assert(haystack@.subrange(i as int, i + m)[j as int] != needle@[j as int]);
            }
            j = j + 1;
        }
        if matched {
            assert(haystack@.subrange(i as int, i + m) =~= needle@);
            return true;
        }
        i = i + 1;
    }
    proof {
        if contains_text(haystack@, needle@) {
            let k = choose|k: int|
                0 <= k && k + needle@.len() <= haystack@.len() && #[trigger] haystack@.subrange(
                    k,
                    k + needle@.len(),
                ) == needle@;
            assert(haystack@.subrange(k, k + m) != needle@);
        }
    }
    false
}

/// Splitting at white space, read from the left: the finished words and the word
/// being read.
pub open spec fn split_state(s: Seq<char>) -> (Seq<Seq<char>>, Seq<char>)
    decreases s.len(),
{
    if s.len() == 0 {
        (Seq::empty(), Seq::empty())
    } else {
        let (words, current) = split_state(s.drop_last());
        let c = s.last();
        if is_whitespace_char(c) {
            if current.len() > 0 {
                (words.push(current), Seq::empty())
            } else {
                (words, Seq::empty())
            }
        } else {
            (words, current.push(c))
        }
    }
}

/// The maximal runs of non-white-space characters (`str::split_whitespace`).
pub open spec fn words(s: Seq<char>) -> Seq<Seq<char>> {
    let (words, current) = split_state(s);
    if current.len() > 0 {
        words.push(current)
    } else {
        words
    }
}

/// The words of `s`, in order.
pub fn split_words(s: &str) -> (r: Vec<String>)
    ensures
        r@.map_values(|w: String| w@) == words(s@),
{
    let n = s.unicode_len();
    let mut out: Vec<String> = Vec::new();
    let mut start: usize = 0;
    let mut i: usize = 0;
    while i < n
        invariant
            n == s@.len(),
            start <= i <= n,
            out@.map_values(|w: String| w@) == split_state(s@.take(i as int)).0,
            s@.subrange(start as int, i as int) == split_state(s@.take(i as int)).1,
        decreases n - i,
    {
        let ghost before = out@.map_values(|w: String| w@);
        proof {
            assert(s@.take(i + 1).drop_last() =~= s@.take(i as int));
            assert(s@.take(i + 1).last() == s@[i as int]);
        }
        let c = s.get_char(i);
        if char_is_whitespace(c) {
            if start < i {
                let word = String::from_str(s.substring_char(start, i));
                out.push(word);
                proof {
                    assert(out@.map_values(|w: String| w@) =~= before.push(
                        s@.subrange(start as int, i as int),
                    ));
                }
            }
            start = i + 1;
            proof {
                assert(s@.subrange(start as int, i + 1) =~= Seq::<char>::empty());
            }
        } else {
            proof {
                assert(s@.subrange(start as int, i + 1) =~= s@.subrange(start as int, i as int).push(
                    c,
                ));
            }
        }
        i = i + 1;
    }
    proof {
        assert(s@.take(n as int) =~= s@);
    }
    if start < n {
        let ghost before = out@.map_values(|w: String| w@);
        let word = String::from_str(s.substring_char(start, n));
        out.push(word);
        proof {
            assert(out@.map_values(|w: String| w@) =~= before.push(s@.subrange(start as int, n as int)));
        }
    }
    out
}

/// Whether `pat` occurs in `s` starting at position `i`.
pub open spec fn occurs_at(s: Seq<char>, pat: Seq<char>, i: int) -> bool {
    0 <= i && i + pat.len() <= s.len() && s.subrange(i, i + pat.len()) == pat
}

/// The first position at or after `k` where `pat` (not empty) occurs in `s`.
pub open spec fn first_occurrence_from(s: Seq<char>, pat: Seq<char>, k: int) -> Option<int>
    decreases s.len() - k,
{
    if k < 0 || k >= s.len() || k + pat.len() > s.len() {
        None
    } else if occurs_at(s, pat, k) {
        Some(k)
    } else {
        first_occurrence_from(s, pat, k + 1)
    }
}

/// Where the `n`-th piece of `s` split at `pat` starts (pieces counted from 0,
/// matches found left to right without overlap), if there is such a piece.
pub open spec fn piece_start(s: Seq<char>, pat: Seq<char>, n: nat) -> Option<int>
    decreases n,
{
    if n == 0 {
        Some(0)
    } else {
        match piece_start(s, pat, (n - 1) as nat) {
            None => None,
            Some(st) => match first_occurrence_from(s, pat, st) {
                None => None,
                Some(i) => Some(i + pat.len()),
            },
        }
    }
}

/// The `n`-th piece of `s` split at `pat` (`str::split(pat).nth(n)`).
pub open spec fn split_piece(s: Seq<char>, pat: Seq<char>, n: nat) -> Option<Seq<char>> {
    match piece_start(s, pat, n) {
        None => None,
        Some(st) => Some(
            s.subrange(
                st,
                match first_occurrence_from(s, pat, st) {
                    Some(e) => e,
                    None => s.len() as int,
                },
            ),
        ),
    }
}

proof fn lemma_first_occurrence_bounds(s: Seq<char>, pat: Seq<char>, k: int)
    requires
        pat.len() > 0,
    ensures
        first_occurrence_from(s, pat, k) matches Some(i) ==> k <= i && occurs_at(s, pat, i),
    decreases s.len() - k,
{
    if !(k < 0 || k >= s.len() || k + pat.len() > s.len()) && !occurs_at(s, pat, k) {
        lemma_first_occurrence_bounds(s, pat, k + 1);
    }
}

proof fn lemma_piece_start_bounds(s: Seq<char>, pat: Seq<char>, n: nat)
    requires
        pat.len() > 0,
    ensures
        piece_start(s, pat, n) matches Some(st) ==> 0 <= st <= s.len(),
    decreases n,
{
    if n > 0 {
        lemma_piece_start_bounds(s, pat, (n - 1) as nat);
        if let Some(st) = piece_start(s, pat, (n - 1) as nat) {
            lemma_first_occurrence_bounds(s, pat, st);
        }
    }
}

/// Whether `pat` occurs in `s` at position `i`, comparing character by
/// character.
fn matches_at(s: &str, pat: &str, i: usize) -> (r: bool)
    requires
        i + pat@.len() <= s@.len(),
    ensures
        r == occurs_at(s@, pat@, i as int),
{
    let n = s.unicode_len();
    let m = pat.unicode_len();
    let mut j: usize = 0;
    while j < m
        invariant
            n == s@.len(),
            m == pat@.len(),
            i + m <= n,
            j <= m,
            forall|t: int| 0 <= t < j ==> s@[i + t] == pat@[t],
        decreases m - j,
    {
        if s.get_char(i + j) != pat.get_char(j) {
            proof {
                assert(s@.subrange(i as int, i + m)[j as int] != pat@[j as int]);
            }
            return false;
        }
        j = j + 1;
    }
    proof {
        assert(s@.subrange(i as int, i + m) =~= pat@);
    }
    true
}

/// The first position at or after `from` where `pat` (not empty) occurs in `s`.
pub fn find_text_from(s: &str, pat: &str, from: usize) -> (r: Option<usize>)
    requires
        pat@.len() > 0,
    ensures
        (match r {
            Some(i) => Some(i as int),
            None => None,
        }) == first_occurrence_from(s@, pat@, from as int),
{
    let n = s.unicode_len();
    let m = pat.unicode_len();
    if from >= n || m > n - from {
        return None;
    }
    let mut k: usize = from;
    while k <= n - m
        invariant
            n == s@.len(),
            m == pat@.len(),
            0 < m <= n,
            from <= k,
            first_occurrence_from(s@, pat@, from as int) == first_occurrence_from(s@, pat@, k as int),
        decreases n - k,
    {
        if matches_at(s, pat, k) {
            return Some(k);
        }
        k = k + 1;
    }
    None
}

/// The `n`-th piece of `s` split at `pat` (not empty), as `str::split(pat).nth(n)`.
pub fn split_nth(s: &str, pat: &str, n: usize) -> (r: Option<String>)
    requires
        pat@.len() > 0,
    ensures
        (match r {
            Some(t) => Some(t@),
            None => None,
        }) == split_piece(s@, pat@, n as nat),
{
    let len = s.unicode_len();
    let m = pat.unicode_len();
    let mut start: usize = 0;
    let mut count: usize = 0;
    while count < n
        invariant
            len == s@.len(),
            m == pat@.len(),
            m > 0,
            count <= n,
            start <= len,
            piece_start(s@, pat@, count as nat) == Some(start as int),
        decreases n - count,
    {
        match find_text_from(s, pat, start) {
            None => {
                proof {
                    assert(piece_start(s@, pat@, (count + 1) as nat) is None);
                    lemma_piece_none_stays(s@, pat@, (count + 1) as nat, n as nat);
                }
                return None;
            },
            Some(i) => {
                proof {
                    lemma_first_occurrence_bounds(s@, pat@, start as int);
                }
                start = i + m;
                count = count + 1;
            },
        }
    }
    let end = match find_text_from(s, pat, start) {
        Some(e) => {
            proof {
                lemma_first_occurrence_bounds(s@, pat@, start as int);
            }
            e
        },
        None => len,
    };
    Some(String::from_str(s.substring_char(start, end)))
}

proof fn lemma_piece_none_stays(s: Seq<char>, pat: Seq<char>, a: nat, b: nat)
    requires
        a <= b,
        piece_start(s, pat, a) is None,
    ensures
        piece_start(s, pat, b) is None,
    decreases b - a,
{
    if a < b {
        lemma_piece_none_stays(s, pat, a, (b - 1) as nat);
    }
}

/// The text without leading white space.
pub open spec fn trim_start_ws(s: Seq<char>) -> Seq<char>
    decreases s.len(),
{
    if s.len() > 0 && is_whitespace_char(s[0]) {
        trim_start_ws(s.drop_first())
    } else {
        s
    }
}

/// The text without trailing white space.
pub open spec fn trim_end_ws(s: Seq<char>) -> Seq<char>
    decreases s.len(),
{
    if s.len() > 0 && is_whitespace_char(s.last()) {
        trim_end_ws(s.drop_last())
    } else {
        s
    }
}

/// `str::trim`: the text without leading and trailing white space.
pub fn trim_whitespace(s: &str) -> (r: String)
    ensures
        r@ == trim_end_ws(trim_start_ws(s@)),
{
    let n = s.unicode_len();
    let mut start: usize = 0;
    proof {
        assert(s@.subrange(0, n as int) =~= s@);
    }
    while start < n && char_is_whitespace(s.get_char(start))
        invariant
            n == s@.len(),
            start <= n,
            trim_start_ws(s@) == trim_start_ws(s@.subrange(start as int, n as int)),
        decreases n - start,
    {
        proof {
            assert(s@.subrange(start as int, n as int).drop_first() =~= s@.subrange(start + 1, n as int));
        }
        start = start + 1;
    }
    let mut end: usize = n;
    proof {
        assert(s@.subrange(start as int, n as int) =~= s@.subrange(start as int, end as int));
    }
    while end > start && char_is_whitespace(s.get_char(end - 1))
        invariant
            n == s@.len(),
            start <= end <= n,
            trim_end_ws(trim_start_ws(s@)) == trim_end_ws(s@.subrange(start as int, end as int)),
        decreases end - start,
    {
        proof {
            assert(s@.subrange(start as int, end as int).drop_last() =~= s@.subrange(start as int, end - 1));
        }
        end = end - 1;
    }
    String::from_str(s.substring_char(start, end))
}

} // verus!
