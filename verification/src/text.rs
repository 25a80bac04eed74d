//! Character-level helpers shared by the parsers: the whitespace class,
//! substring search, trimming, splitting and joining, all stated over
//! `Seq<char>`.
use vstd::prelude::*;

verus! {

/// The Unicode `White_Space` property, as `char::is_whitespace` defines it.
pub open spec fn is_ws(c: char) -> bool {
    ||| ('\u{9}' <= c && c <= '\u{d}')
    ||| c == ' '
    ||| c == '\u{85}'
    ||| c == '\u{a0}'
    ||| c == '\u{1680}'
    ||| ('\u{2000}' <= c && c <= '\u{200a}')
    ||| c == '\u{2028}'
    ||| c == '\u{2029}'
    ||| c == '\u{202f}'
    ||| c == '\u{205f}'
    ||| c == '\u{3000}'
}

/// Whitespace test on one character.
pub fn char_is_ws(c: char) -> (r: bool)
    ensures
        r == is_ws(c),
{
    ('\u{9}' <= c && c <= '\u{d}') || c == ' ' || c == '\u{85}' || c == '\u{a0}' || c
        == '\u{1680}' || ('\u{2000}' <= c && c <= '\u{200a}') || c == '\u{2028}' || c
        == '\u{2029}' || c == '\u{202f}' || c == '\u{205f}' || c == '\u{3000}'
}

/// The characters of a string slice, in order.
///
/// Calls `str::chars` and collects the iterator; the result holds exactly
/// the characters of `s` (this is the meaning of `s@`). Kept as a trusted
/// call: a verified loop over `get_char` would take quadratic time.
#[verifier::external_body]
pub(crate) fn chars_of(s: &str) -> (r: Vec<char>)
    ensures
        r@ == s@,
{
    s.chars().collect()
}

/// A `String` holding exactly the given characters.
///
/// Collects the characters through `FromIterator<char> for String`.
#[verifier::external_body]
pub(crate) fn string_of(cs: &[char]) -> (r: String)
    ensures
        r@ == cs@,
{
    cs.iter().collect()
}

/// String slice equality (`<str as PartialEq>::eq`): true exactly when the
/// two slices hold the same characters. Kept as a trusted call: a verified
/// comparison through `get_char` would take quadratic time.
#[verifier::external_body]
pub(crate) fn str_eq(a: &str, b: &str) -> (r: bool)
    ensures
        r == (a@ == b@),
{
    a == b
}

/// `needle` occurs in `hay` starting at index `i`.
pub open spec fn occurs_at(hay: Seq<char>, needle: Seq<char>, i: int) -> bool {
    0 <= i && i + needle.len() <= hay.len() && hay.subrange(i, i + needle.len()) == needle
}

/// `needle` occurs somewhere in `hay`.
pub open spec fn contains_seq(hay: Seq<char>, needle: Seq<char>) -> bool {
    exists|i: int| occurs_at(hay, needle, i)
}

pub open spec fn starts_with_seq(s: Seq<char>, p: Seq<char>) -> bool {
    p.len() <= s.len() && s.take(p.len() as int) == p
}

pub open spec fn ends_with_seq(s: Seq<char>, p: Seq<char>) -> bool {
    p.len() <= s.len() && s.skip(s.len() - p.len()) == p
}

/// Does `needle` occur in `hay` at position `i`?
pub fn matches_at(hay: &[char], needle: &[char], i: usize) -> (r: bool)
    requires
        i <= hay@.len(),
    ensures
        r == occurs_at(hay@, needle@, i as int),
{
    if needle.len() > hay.len() - i {
        return false;
    }
    let mut j: usize = 0;
    while j < needle.len()
        invariant
            i + needle@.len() <= hay@.len(),
            hay@.len() <= usize::MAX,
            j <= needle@.len(),
            forall|k: int| 0 <= k < j ==> hay@[i + k] == needle@[k],
        decreases needle@.len() - j,
    {
        if hay[i + j] != needle[j] {
            assert(hay@.subrange(i as int, i + needle@.len())[j as int] != needle@[j as int]);
            return false;
        }
        j = j + 1;
    }
    assert(hay@.subrange(i as int, i + needle@.len()) =~= needle@);
    true
}

/// First index at which `needle` occurs in `hay`, if any.
pub fn find_seq(hay: &[char], needle: &[char]) -> (r: Option<usize>)
    ensures
        r is None <==> !contains_seq(hay@, needle@),
        r matches Some(i) ==> occurs_at(hay@, needle@, i as int) && forall|k: int|
            0 <= k < i ==> !occurs_at(hay@, needle@, k),
{
    let mut i: usize = 0;
    while i < hay.len()
        invariant
            i <= hay@.len(),
            forall|k: int| 0 <= k < i ==> !occurs_at(hay@, needle@, k),
        decreases hay@.len() - i,
    {
        if matches_at(hay, needle, i) {
            return Some(i);
        }
        i = i + 1;
    }
    if matches_at(hay, needle, i) {
        return Some(i);
    }
    assert forall|k: int| !occurs_at(hay@, needle@, k) by {
        if 0 <= k && occurs_at(hay@, needle@, k) {
            assert(k <= hay@.len());
        }
    }
    None
}

/// The first index at or after `i` where `needle` occurs in `hay`.
pub open spec fn find_from(hay: Seq<char>, needle: Seq<char>, i: int) -> Option<int>
    decreases hay.len() + 1 - i,
{
    if i < 0 || i > hay.len() {
        None
    } else if occurs_at(hay, needle, i) {
        Some(i)
    } else {
        find_from(hay, needle, i + 1)
    }
}

proof fn lemma_find_from(hay: Seq<char>, needle: Seq<char>, i: int)
    requires
        0 <= i,
        forall|k: int| 0 <= k < i ==> !occurs_at(hay, needle, k),
    ensures
        match find_from(hay, needle, i) {
            Some(j) => occurs_at(hay, needle, j) && forall|k: int| 0 <= k < j ==> !occurs_at(hay, needle, k),
            None => !contains_seq(hay, needle),
        },
    decreases hay.len() + 1 - i,
{
    if i > hay.len() {
        assert forall|k: int| !occurs_at(hay, needle, k) by {
            if 0 <= k && occurs_at(hay, needle, k) {
                assert(k <= hay.len());
            }
        }
    } else if !occurs_at(hay, needle, i) {
        lemma_find_from(hay, needle, i + 1);
    }
}

/// A found index is an occurrence.
pub proof fn lemma_find_from_found(hay: Seq<char>, needle: Seq<char>, i: int)
    ensures
        match find_from(hay, needle, i) {
            Some(j) => occurs_at(hay, needle, j) && i <= j,
            None => true,
        },
    decreases hay.len() + 1 - i,
{
    if 0 <= i <= hay.len() && !occurs_at(hay, needle, i) {
        lemma_find_from_found(hay, needle, i + 1);
    }
}

/// The first index where `needle` occurs in `s` (`str::find`).
pub fn str_find(s: &Vec<char>, needle: &Vec<char>) -> (r: Option<usize>)
    ensures
        match r {
            Some(i) => find_from(s@, needle@, 0) == Some(i as int),
            None => find_from(s@, needle@, 0) is None,
        },
{
    let r = find_seq(s.as_slice(), needle.as_slice());
    proof {
        lemma_find_from(s@, needle@, 0);
        match r {
            Some(i) => {
                match find_from(s@, needle@, 0) {
                    Some(j) => {
                        if j < i {
                        } else if j > i {
                        }
                    },
                    None => {},
                }
            },
            None => {},
        }
    }
    r
}

/// Substring containment (`str::contains` with a string pattern).
pub fn contains_chars(hay: &[char], needle: &[char]) -> (r: bool)
    ensures
        r == contains_seq(hay@, needle@),
{
    find_seq(hay, needle).is_some()
}

/// Does the string `hay` contain the string `needle`?
pub fn str_contains(hay: &str, needle: &str) -> (r: bool)
    ensures
        r == contains_seq(hay@, needle@),
{
    let h = chars_of(hay);
    let n = chars_of(needle);
    contains_chars(h.as_slice(), n.as_slice())
}

/// Prefix test on strings.
pub fn str_starts_with(s: &str, p: &str) -> (r: bool)
    ensures
        r == starts_with_seq(s@, p@),
{
    let sc = chars_of(s);
    let pc = chars_of(p);
    if pc.len() > sc.len() {
        return false;
    }
    let r = matches_at(sc.as_slice(), pc.as_slice(), 0);
    assert(sc@.subrange(0, pc@.len() as int) =~= sc@.take(pc@.len() as int));
    r
}

/// Suffix test on character slices.
pub fn chars_ends_with(s: &[char], p: &[char]) -> (r: bool)
    ensures
        r == ends_with_seq(s@, p@),
{
    if p.len() > s.len() {
        return false;
    }
    let start: usize = s.len() - p.len();
    let r = matches_at(s, p, start);
    assert(s@.subrange(start as int, start + p@.len()) =~= s@.skip(start as int));
    r
}

/// A copy of `s[lo..hi]` as a vector.
pub fn slice_chars(s: &[char], lo: usize, hi: usize) -> (r: Vec<char>)
    requires
        lo <= hi <= s@.len(),
    ensures
        r@ == s@.subrange(lo as int, hi as int),
{
    let mut r: Vec<char> = Vec::new();
    let mut i: usize = lo;
    while i < hi
        invariant
            lo <= i <= hi <= s@.len(),
            r@ == s@.subrange(lo as int, i as int),
        decreases hi - i,
    {
        r.push(s[i]);
        i = i + 1;
        assert(r@ =~= s@.subrange(lo as int, i as int));
    }
    r
}

/// Index of the first non-whitespace character at or after `i` (or the end).
pub open spec fn ws_run_end(s: Seq<char>, i: int) -> int
    decreases s.len() - i,
{
    if i < s.len() && is_ws(s[i]) {
        ws_run_end(s, i + 1)
    } else {
        i
    }
}

/// One past the last non-whitespace character before `j` (or `lo`).
pub open spec fn ws_run_start(s: Seq<char>, lo: int, j: int) -> int
    decreases j - lo,
{
    if lo < j && is_ws(s[j - 1]) {
        ws_run_start(s, lo, j - 1)
    } else {
        j
    }
}

/// `s` without leading whitespace (`str::trim_start`).
pub open spec fn trim_start_seq(s: Seq<char>) -> Seq<char> {
    s.skip(ws_run_end(s, 0))
}

/// `s` without trailing whitespace (`str::trim_end`).
pub open spec fn trim_end_seq(s: Seq<char>) -> Seq<char> {
    s.take(ws_run_start(s, 0, s.len() as int))
}

/// `s` without leading or trailing whitespace (`str::trim`).
pub open spec fn trim_seq(s: Seq<char>) -> Seq<char> {
    trim_end_seq(trim_start_seq(s))
}

pub proof fn lemma_ws_run_end(s: Seq<char>, i: int)
    requires
        0 <= i <= s.len(),
    ensures
        i <= ws_run_end(s, i) <= s.len(),
        forall|k: int| i <= k < ws_run_end(s, i) ==> is_ws(#[trigger] s[k]),
        ws_run_end(s, i) < s.len() ==> !is_ws(s[ws_run_end(s, i)]),
    decreases s.len() - i,
{
    if i < s.len() && is_ws(s[i]) {
        lemma_ws_run_end(s, i + 1);
    }
}

pub proof fn lemma_ws_run_start(s: Seq<char>, lo: int, j: int)
    requires
        0 <= lo <= j <= s.len(),
    ensures
        lo <= ws_run_start(s, lo, j) <= j,
        forall|k: int| ws_run_start(s, lo, j) <= k < j ==> is_ws(#[trigger] s[k]),
        ws_run_start(s, lo, j) > lo ==> !is_ws(s[ws_run_start(s, lo, j) - 1]),
    decreases j - lo,
{
    if lo < j && is_ws(s[j - 1]) {
        lemma_ws_run_start(s, lo, j - 1);
    }
}

/// Position of the first non-whitespace character at or after `i`.
pub fn skip_ws(s: &[char], i: usize) -> (r: usize)
    requires
        i <= s@.len(),
    ensures
        r == ws_run_end(s@, i as int),
{
    let mut j: usize = i;
    while j < s.len() && char_is_ws(s[j])
        invariant
            i <= j <= s@.len(),
            ws_run_end(s@, i as int) == ws_run_end(s@, j as int),
        decreases s@.len() - j,
    {
        j = j + 1;
    }
    j
}

/// Position just after the last non-whitespace character in `s[lo..j]`.
pub fn skip_ws_back(s: &[char], lo: usize, j: usize) -> (r: usize)
    requires
        lo <= j <= s@.len(),
    ensures
        r == ws_run_start(s@, lo as int, j as int),
{
    let mut k = j;
    while k > lo && char_is_ws(s[k - 1])
        invariant
            lo <= k <= j <= s@.len(),
            ws_run_start(s@, lo as int, j as int) == ws_run_start(s@, lo as int, k as int),
        decreases k - lo,
    {
        k = k - 1;
    }
    k
}

/// `s` with surrounding whitespace removed.
pub fn trim_chars(s: &[char]) -> (r: Vec<char>)
    ensures
        r@ == trim_seq(s@),
{
    let a = skip_ws(s, 0);
    proof {
        lemma_ws_run_end(s@, 0);
    }
    let b = skip_ws_back(s, a, s.len());
    proof {
        lemma_ws_run_start(s@, a as int, s@.len() as int);
        let t = s@.skip(a as int);
        lemma_ws_run_start_shift(s@, a as int, s@.len() as int);
        assert(trim_start_seq(s@) == t);
    }
    let r = slice_chars(s, a, b);
    proof {
        let t = s@.skip(a as int);
        assert(trim_end_seq(t) =~= s@.subrange(a as int, b as int));
    }
    r
}

/// Trimming the tail of a suffix is the same as trimming in place.
pub proof fn lemma_ws_run_start_shift(s: Seq<char>, a: int, j: int)
    requires
        0 <= a <= j <= s.len(),
    ensures
        ws_run_start(s.skip(a), 0, j - a) == ws_run_start(s, a, j) - a,
    decreases j - a,
{
    if a < j && is_ws(s[j - 1]) {
        assert(s.skip(a)[j - a - 1] == s[j - 1]);
        lemma_ws_run_start_shift(s, a, j - 1);
    } else if a < j {
        assert(s.skip(a)[j - a - 1] == s[j - 1]);
    }
}

/// The parts joined with `sep` between consecutive parts (`[T]::join`).
pub open spec fn join_seq(parts: Seq<Seq<char>>, sep: Seq<char>) -> Seq<char>
    decreases parts.len(),
{
    if parts.len() == 0 {
        Seq::empty()
    } else if parts.len() == 1 {
        parts[0]
    } else {
        join_seq(parts.drop_last(), sep) + sep + parts.last()
    }
}

pub open spec fn views(v: Seq<String>) -> Seq<Seq<char>> {
    v.map_values(|s: String| s@)
}

/// Appends the characters of `s` to `acc`.
pub fn push_str_chars(acc: &mut Vec<char>, s: &str)
    ensures
        final(acc)@ == old(acc)@ + s@,
{
    let cs = chars_of(s);
    let ghost start = acc@;
    let mut i: usize = 0;
    while i < cs.len()
        invariant
            i <= cs@.len(),
            acc@ == start + cs@.take(i as int),
        decreases cs@.len() - i,
    {
        acc.push(cs[i]);
        proof {
            assert(acc@ =~= start + cs@.take(i + 1));
        }
        i = i + 1;
    }
    proof {
        assert(cs@.take(i as int) =~= cs@);
    }
}

/// The parts joined with `sep`.
pub fn join_strings(parts: &Vec<String>, sep: &str) -> (r: String)
    ensures
        r@ == join_seq(views(parts@), sep@),
{
    let ghost pv = views(parts@);
    let mut acc: Vec<char> = Vec::new();
    let mut i: usize = 0;
    proof {
        assert(pv.take(0) =~= Seq::<Seq<char>>::empty());
    }
    while i < parts.len()
        invariant
            i <= parts@.len(),
            pv == views(parts@),
            acc@ == join_seq(pv.take(i as int), sep@),
        decreases parts@.len() - i,
    {
        let ghost before = acc@;
        if i > 0 {
            push_str_chars(&mut acc, sep);
        }
        push_str_chars(&mut acc, parts[i].as_str());
        proof {
            assert(pv.take(i + 1).drop_last() =~= pv.take(i as int));
            assert(pv.take(i + 1).last() == parts@[i as int]@);
            if i == 0 {
                assert(acc@ =~= pv.take(1)[0]);
            } else {
                assert(acc@ =~= join_seq(pv.take(i as int), sep@) + sep@ + pv.take(i + 1).last());
            }
        }
        i = i + 1;
    }
    proof {
        assert(pv.take(i as int) =~= pv);
    }
    string_of(acc.as_slice())
}

/// Index of the first whitespace character at or after `j` (or the end).
pub open spec fn word_end(s: Seq<char>, j: int) -> int
    decreases s.len() - j,
{
    if j < s.len() && !is_ws(s[j]) {
        word_end(s, j + 1)
    } else {
        j
    }
}

pub proof fn lemma_word_end(s: Seq<char>, j: int)
    requires
        0 <= j <= s.len(),
    ensures
        j <= word_end(s, j) <= s.len(),
        j < s.len() && !is_ws(s[j]) ==> j < word_end(s, j),
    decreases s.len() - j,
{
    if j < s.len() && !is_ws(s[j]) {
        lemma_word_end(s, j + 1);
    }
}

/// The whitespace-separated words of `s` from index `i` on.
pub open spec fn words_from(s: Seq<char>, i: int) -> Seq<Seq<char>>
    decreases s.len() - i,
{
    if i < 0 || i > s.len() {
        Seq::empty()
    } else {
        let j = ws_run_end(s, i);
        proof {
            lemma_ws_run_end(s, i);
        }
        if j >= s.len() {
            Seq::empty()
        } else {
            proof {
                lemma_word_end(s, j);
            }
            seq![s.subrange(j, word_end(s, j))] + words_from(s, word_end(s, j))
        }
    }
}

/// The whitespace-separated words of `s` (`str::split_whitespace`).
pub open spec fn words(s: Seq<char>) -> Seq<Seq<char>> {
    words_from(s, 0)
}

/// Splits `text` at whitespace, dropping empty pieces.
pub fn split_whitespace(text: &str) -> (r: Vec<String>)
    ensures
        views(r@) == words(text@),
{
    let s = chars_of(text);
    let mut out: Vec<String> = Vec::new();
    let mut i: usize = 0;
    proof {
        assert(views(out@) =~= Seq::<Seq<char>>::empty());
        assert(words(s@) =~= views(out@) + words_from(s@, 0));
    }
    while i < s.len()
        invariant
            i <= s@.len(),
            s@ == text@,
            words(s@) == views(out@) + words_from(s@, i as int),
        decreases s@.len() - i,
    {
        let j = skip_ws(s.as_slice(), i);
        proof {
            lemma_ws_run_end(s@, i as int);
        }
        if j >= s.len() {
            proof {
                assert(words_from(s@, i as int) =~= Seq::<Seq<char>>::empty());
                assert(words_from(s@, s@.len() as int) =~= Seq::<Seq<char>>::empty());
            }
            i = s.len();
        } else {
            let mut k = j;
            while k < s.len() && !char_is_ws(s[k])
                invariant
                    j <= k <= s@.len(),
                    word_end(s@, j as int) == word_end(s@, k as int),
                decreases s@.len() - k,
            {
                k = k + 1;
            }
            proof {
                lemma_word_end(s@, j as int);
            }
            let piece = slice_chars(s.as_slice(), j, k);
            let ghost before = views(out@);
            out.push(string_of(piece.as_slice()));
            proof {
                assert(views(out@) =~= before.push(s@.subrange(j as int, k as int)));
                assert(views(out@) + words_from(s@, k as int) =~= before + words_from(
                    s@,
                    i as int,
                ));
            }
            i = k;
        }
    }
    proof {
        assert(words_from(s@, i as int) =~= Seq::<Seq<char>>::empty());
        assert(views(out@) + Seq::<Seq<char>>::empty() =~= views(out@));
    }
    out
}

// ── Concatenation and ASCII case ───────────────────────────────────────

/// `a` followed by `b` followed by `c`.
pub fn cat3(a: &str, b: &str, c: &str) -> (r: String)
    ensures
        r@ == a@ + b@ + c@,
{
    let mut acc: Vec<char> = Vec::new();
    push_str_chars(&mut acc, a);
    push_str_chars(&mut acc, b);
    push_str_chars(&mut acc, c);
    proof {
        assert(acc@ =~= a@ + b@ + c@);
    }
    string_of(acc.as_slice())
}

/// `a`, `b`, `c`, `d` and `e` one after the other.
pub fn cat5(a: &str, b: &str, c: &str, d: &str, e: &str) -> (r: String)
    ensures
        r@ == a@ + b@ + c@ + d@ + e@,
{
    let mut acc: Vec<char> = Vec::new();
    push_str_chars(&mut acc, a);
    push_str_chars(&mut acc, b);
    push_str_chars(&mut acc, c);
    push_str_chars(&mut acc, d);
    push_str_chars(&mut acc, e);
    proof {
        assert(acc@ =~= a@ + b@ + c@ + d@ + e@);
    }
    string_of(acc.as_slice())
}

/// The code of `c` with ASCII upper case letters lowered.
pub open spec fn ascii_lower_code(c: char) -> u32 {
    if 'A' <= c && c <= 'Z' {
        (c as u32 + 32) as u32
    } else {
        c as u32
    }
}

/// Equal up to ASCII case (`str::eq_ignore_ascii_case`).
pub open spec fn eq_ignore_ascii_case(a: Seq<char>, b: Seq<char>) -> bool {
    &&& a.len() == b.len()
    &&& forall|i: int| 0 <= i < a.len() ==> #[trigger] ascii_lower_code(a[i]) == ascii_lower_code(b[i])
}

fn char_lower_code(c: char) -> (r: u32)
    ensures
        r == ascii_lower_code(c),
{
    if 'A' <= c && c <= 'Z' {
        (c as u32) + 32
    } else {
        c as u32
    }
}

/// Compares two strings ignoring ASCII case.
pub fn str_eq_ignore_ascii_case(a: &str, b: &str) -> (r: bool)
    ensures
        r == eq_ignore_ascii_case(a@, b@),
{
    let ac = chars_of(a);
    let bc = chars_of(b);
    if ac.len() != bc.len() {
        return false;
    }
    let mut i: usize = 0;
    while i < ac.len()
        invariant
            i <= ac@.len(),
            ac@ == a@,
            bc@ == b@,
            ac@.len() == bc@.len(),
            forall|k: int| 0 <= k < i ==> #[trigger] ascii_lower_code(ac@[k]) == ascii_lower_code(bc@[k]),
        decreases ac@.len() - i,
    {
        if char_lower_code(ac[i]) != char_lower_code(bc[i]) {
            return false;
        }
        i = i + 1;
    }
    true
}

} // verus!
