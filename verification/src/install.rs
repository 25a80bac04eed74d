//! The game install: its Steam app id, its checksum manifest and the
//! version its launcher settings name.
use vstd::prelude::*;
use crate::clausewitz::opt_str_view;
use crate::gather::or_else;
use crate::model::ChecksumScope;
use crate::numbers::{all_digits, digits_value, is_digit};
use crate::text::{
    chars_of, contains_seq, ends_with_seq, find_from, slice_chars, split_whitespace, str_find,
    string_of, trim_chars, trim_seq, trim_start_seq, views, word_end, words,
};
use crate::values::{
    FactValue, SFact, entries_view, fact_view, facts_view, lemma_entries_view, lemma_facts_view,
};

verus! {

// ── Small text helpers ──────────────────────────────────────────────────

/// `s` without every trailing `c`.
pub open spec fn strip_trailing(s: Seq<char>, c: char) -> Seq<char>
    decreases s.len(),
{
    if s.len() > 0 && s.last() == c {
        strip_trailing(s.drop_last(), c)
    } else {
        s
    }
}

/// `s` without every leading `c`.
pub open spec fn strip_leading(s: Seq<char>, c: char) -> Seq<char>
    decreases s.len(),
{
    if s.len() > 0 && s[0] == c {
        strip_leading(s.drop_first(), c)
    } else {
        s
    }
}

pub fn strip_trailing_chars(s: &Vec<char>, c: char) -> (r: Vec<char>)
    ensures
        r@ == strip_trailing(s@, c),
{
    let mut end: usize = s.len();
    proof {
        assert(s@.take(end as int) =~= s@);
    }
    while end > 0 && s[end - 1] == c
        invariant
            end <= s@.len(),
            strip_trailing(s@, c) == strip_trailing(s@.take(end as int), c),
        decreases end,
    {
        proof {
            assert(s@.take(end as int).drop_last() =~= s@.take(end - 1));
        }
        end = end - 1;
    }
    let r = slice_chars(s.as_slice(), 0, end);
    proof {
        assert(r@ =~= s@.take(end as int));
    }
    r
}

pub fn strip_leading_chars(s: &Vec<char>, c: char) -> (r: Vec<char>)
    ensures
        r@ == strip_leading(s@, c),
{
    let mut start: usize = 0;
    proof {
        assert(s@.skip(0) =~= s@);
    }
    while start < s.len() && s[start] == c
        invariant
            start <= s@.len(),
            strip_leading(s@, c) == strip_leading(s@.skip(start as int), c),
        decreases s@.len() - start,
    {
        proof {
            assert(s@.skip(start as int).drop_first() =~= s@.skip(start + 1));
        }
        start = start + 1;
    }
    let r = slice_chars(s.as_slice(), start, s.len());
    proof {
        assert(r@ =~= s@.skip(start as int));
    }
    r
}

/// The index of the first `c` at or after `i` (or the length).
pub open spec fn char_from(s: Seq<char>, c: char, i: int) -> int
    decreases s.len() - i,
{
    if i < s.len() && s[i] != c {
        char_from(s, c, i + 1)
    } else {
        i
    }
}

pub proof fn lemma_char_from(s: Seq<char>, c: char, i: int)
    requires
        0 <= i <= s.len(),
    ensures
        i <= char_from(s, c, i) <= s.len(),
        char_from(s, c, i) < s.len() ==> s[char_from(s, c, i)] == c,
    decreases s.len() - i,
{
    if i < s.len() && s[i] != c {
        lemma_char_from(s, c, i + 1);
    }
}

/// The pieces of `s[i..]` between the occurrences of `c` (`str::split`).
pub open spec fn split_from(s: Seq<char>, c: char, i: int) -> Seq<Seq<char>>
    decreases s.len() - i,
{
    if i < 0 || i > s.len() {
        Seq::empty()
    } else {
        let j = char_from(s, c, i);
        proof {
            lemma_char_from(s, c, i);
        }
        if j >= s.len() {
            seq![s.subrange(i, s.len() as int)]
        } else {
            seq![s.subrange(i, j)] + split_from(s, c, j + 1)
        }
    }
}

/// The comma-separated items of `s`, trimmed, empty ones dropped.
pub open spec fn list_items(pieces: Seq<Seq<char>>) -> Seq<Seq<char>>
    decreases pieces.len(),
{
    if pieces.len() == 0 {
        Seq::empty()
    } else {
        let rest = list_items(pieces.drop_last());
        let t = trim_seq(pieces.last());
        if t.len() > 0 {
            rest.push(t)
        } else {
            rest
        }
    }
}

/// The patterns listed after a directory: comma separated, trimmed,
/// empty ones dropped.
pub open spec fn patterns_of(rest: Seq<char>) -> Seq<Seq<char>> {
    list_items(split_from(trim_seq(rest), ',', 0))
}

fn comma_items(rest: &Vec<char>) -> (r: Vec<String>)
    ensures
        views(r@) == patterns_of(rest@),
{
    let t = trim_chars(rest.as_slice());
    let ghost tv = t@;
    let mut out: Vec<String> = Vec::new();
    let ghost mut pieces: Seq<Seq<char>> = Seq::empty();
    let mut i: usize = 0;
    proof {
        assert(views(out@) =~= list_items(pieces));
        assert(split_from(tv, ',', 0) =~= pieces + split_from(tv, ',', 0));
    }
    loop
        invariant
            i <= tv.len(),
            tv == t@,
            tv == trim_seq(rest@),
            views(out@) == list_items(pieces),
            split_from(tv, ',', 0) == pieces + split_from(tv, ',', i as int),
        decreases tv.len() - i,
    {
        let mut j: usize = i;
        while j < t.len() && t[j] != ','
            invariant
                i <= j <= tv.len(),
                tv == t@,
                char_from(tv, ',', i as int) == char_from(tv, ',', j as int),
            decreases tv.len() - j,
        {
            j = j + 1;
        }
        proof {
            lemma_char_from(tv, ',', i as int);
        }
        let piece = slice_chars(t.as_slice(), i, j);
        let item = trim_chars(piece.as_slice());
        let ghost before = views(out@);
        let ghost pv = piece@;
        proof {
            assert(pv == tv.subrange(i as int, j as int));
            assert(pieces.push(pv).drop_last() =~= pieces);
        }
        if item.len() > 0 {
            out.push(string_of(item.as_slice()));
            proof {
                assert(views(out@) =~= before.push(item@));
            }
        }
        if j >= t.len() {
            proof {
                assert(split_from(tv, ',', i as int) =~= seq![pv]);
                pieces = pieces.push(pv);
                assert(split_from(tv, ',', 0) =~= pieces);
            }
            return out;
        }
        proof {
            assert(split_from(tv, ',', i as int) =~= seq![pv] + split_from(tv, ',', j + 1));
            assert(pieces + split_from(tv, ',', i as int) =~= pieces.push(pv) + split_from(
                tv,
                ',',
                j + 1,
            ));
            pieces = pieces.push(pv);
        }
        i = j + 1;
    }
}

// ── The checksum manifest ───────────────────────────────────────────────

/// The value after `key =` in a key-value manifest line: the first word
/// after the `=`, without surrounding quotes, when not empty.
pub open spec fn spec_find_manifest_value(raw: Seq<char>, key: Seq<char>) -> Option<Seq<char>> {
    match find_from(raw, key, 0) {
        None => None,
        Some(start) => {
            let t = trim_start_seq(raw.skip(start + key.len()));
            if t.len() > 0 && t[0] == '=' {
                let ws = words(trim_start_seq(t.skip(1)));
                if ws.len() == 0 {
                    None
                } else {
                    let v = strip_trailing(strip_leading(ws[0], '"'), '"');
                    if v.len() > 0 {
                        Some(v)
                    } else {
                        None
                    }
                }
            } else {
                None
            }
        }
    }
}

/// Finds the value written after `key =` in a key-value manifest line.
pub fn find_manifest_value(raw: &str, key: &str) -> (r: Option<String>)
    ensures
        opt_str_view(r) == spec_find_manifest_value(raw@, key@),
{
    let rc = chars_of(raw);
    let kc = chars_of(key);
    let start = match str_find(&rc, &kc) {
        Some(s) => s,
        None => return None,
    };
    let rl: usize = rc.len();
    let kl: usize = kc.len();
    proof {
        crate::text::lemma_find_from_found(rc@, kc@, 0);
        assert(crate::text::occurs_at(rc@, kc@, start as int));
        assert(start + kl <= rl);
    }
    let after_key = slice_chars(rc.as_slice(), start + kl, rl);
    let t0 = crate::text::skip_ws(after_key.as_slice(), 0);
    proof {
        crate::text::lemma_ws_run_end(after_key@, 0);
        assert(after_key@ =~= raw@.skip(start + key@.len()));
    }
    let t = slice_chars(after_key.as_slice(), t0, after_key.len());
    proof {
        assert(t@ =~= trim_start_seq(after_key@));
    }
    if t.len() == 0 || t[0] != '=' {
        return None;
    }
    let after_eq = slice_chars(t.as_slice(), 1, t.len());
    let a0 = crate::text::skip_ws(after_eq.as_slice(), 0);
    proof {
        crate::text::lemma_ws_run_end(after_eq@, 0);
        assert(after_eq@ =~= t@.skip(1));
    }
    let rest = slice_chars(after_eq.as_slice(), a0, after_eq.len());
    proof {
        assert(rest@ =~= trim_start_seq(after_eq@));
    }
    let ws = split_whitespace(string_of(rest.as_slice()).as_str());
    if ws.len() == 0 {
        return None;
    }
    let first = chars_of(ws[0].as_str());
    proof {
        assert(first@ == views(ws@)[0]);
    }
    let unquoted = strip_trailing_chars(&strip_leading_chars(&first, '"'), '"');
    if unquoted.len() == 0 {
        return None;
    }
    Some(string_of(unquoted.as_slice()))
}

/// What a manifest line describes: `(raw, directory, patterns, recursive)`.
pub type ScopeModel = (Seq<char>, Option<Seq<char>>, Seq<Seq<char>>, bool);

pub open spec fn scope_view(s: ChecksumScope) -> ScopeModel {
    (s.raw@, opt_str_view(s.directory), views(s.patterns@), s.recursive)
}

pub open spec fn opt_scope_view(o: Option<ChecksumScope>) -> Option<ScopeModel> {
    match o {
        Some(s) => Some(scope_view(s)),
        None => None,
    }
}

/// A key-value line: `directory name = ".." sub_directories = ".."
/// file_extension = ".."`.
pub open spec fn spec_key_value_line(raw: Seq<char>) -> Option<ScopeModel> {
    match or_else(
        spec_find_manifest_value(raw, "directory name"@),
        spec_find_manifest_value(raw, "directory"@),
    ) {
        None => None,
        Some(dir) => Some(
            (
                raw,
                Some(strip_trailing(dir, '/')),
                match spec_find_manifest_value(raw, "file_extension"@) {
                    Some(e) => seq!["*"@ + e],
                    None => Seq::empty(),
                },
                match spec_find_manifest_value(raw, "sub_directories"@) {
                    Some(v) => v == "yes"@ || v == "true"@ || v == "1"@,
                    None => false,
                },
            ),
        ),
    }
}

/// Parses a key-value manifest line.
pub fn parse_manifest_key_value_line(raw: &str) -> (r: Option<ChecksumScope>)
    ensures
        opt_scope_view(r) == spec_key_value_line(raw@),
{
    let directory = match find_manifest_value(raw, "directory name") {
        Some(d) => d,
        None => match find_manifest_value(raw, "directory") {
            Some(d) => d,
            None => return None,
        },
    };
    let recursive = match find_manifest_value(raw, "sub_directories") {
        Some(v) => crate::text::str_eq(v.as_str(), "yes") || crate::text::str_eq(v.as_str(), "true")
            || crate::text::str_eq(v.as_str(), "1"),
        None => false,
    };
    let mut patterns: Vec<String> = Vec::new();
    if let Some(extension) = find_manifest_value(raw, "file_extension") {
        patterns.push(crate::text::cat3("*", extension.as_str(), ""));
        proof {
            reveal_strlit("");
            assert(views(patterns@) =~= seq!["*"@ + extension@]);
        }
    } else {
        proof {
            assert(views(patterns@) =~= Seq::<Seq<char>>::empty());
        }
    }
    let dc = chars_of(directory.as_str());
    let dir = strip_trailing_chars(&dc, '/');
    Some(
        ChecksumScope {
            raw: raw.to_owned(),
            directory: Some(string_of(dir.as_slice())),
            patterns,
            recursive,
        },
    )
}

/// One line of `checksum_manifest.txt`: nothing for blank lines and
/// comments; a key-value line when it names `directory name` or
/// `file_extension`; otherwise `<directory> <patterns>`, optionally
/// followed by ` with subdirectories`.
pub open spec fn spec_checksum_line(line: Seq<char>) -> Option<ScopeModel> {
    let raw = trim_seq(line);
    if raw.len() == 0 || raw[0] == '#' {
        None
    } else if contains_seq(raw, "directory name"@) || contains_seq(raw, "file_extension"@) {
        spec_key_value_line(raw)
    } else {
        let recursive = ends_with_seq(raw, " with subdirectories"@);
        let body = if recursive {
            trim_seq(raw.take(raw.len() - " with subdirectories"@.len()))
        } else {
            raw
        };
        let k = word_end(body, 0);
        if k >= body.len() {
            None
        } else {
            Some((raw, Some(strip_trailing(body.take(k), '/')), patterns_of(body.skip(k)), recursive))
        }
    }
}

/// Parses one line of the checksum manifest.
pub fn parse_checksum_line(line: &str) -> (r: Option<ChecksumScope>)
    ensures
        opt_scope_view(r) == spec_checksum_line(line@),
{
    let lc = chars_of(line);
    let raw = trim_chars(lc.as_slice());
    if raw.len() == 0 || raw[0] == '#' {
        return None;
    }
    let raw_text = string_of(raw.as_slice());
    if crate::text::str_contains(raw_text.as_str(), "directory name") || crate::text::str_contains(
        raw_text.as_str(),
        "file_extension",
    ) {
        return parse_manifest_key_value_line(raw_text.as_str());
    }
    let suffix = chars_of(" with subdirectories");
    let recursive = crate::text::chars_ends_with(raw.as_slice(), suffix.as_slice());
    let body = if recursive {
        let cut = slice_chars(raw.as_slice(), 0, raw.len() - suffix.len());
        proof {
            assert(cut@ =~= raw@.take(raw@.len() - suffix@.len()));
        }
        trim_chars(cut.as_slice())
    } else {
        raw.clone()
    };
    let mut k: usize = 0;
    while k < body.len() && !crate::text::char_is_ws(body[k])
        invariant
            k <= body@.len(),
            word_end(body@, 0) == word_end(body@, k as int),
        decreases body@.len() - k,
    {
        k = k + 1;
    }
    if k >= body.len() {
        return None;
    }
    let directory = slice_chars(body.as_slice(), 0, k);
    let rest = slice_chars(body.as_slice(), k, body.len());
    proof {
        assert(directory@ =~= body@.take(k as int));
        assert(rest@ =~= body@.skip(k as int));
    }
    let dir = strip_trailing_chars(&directory, '/');
    let patterns = comma_items(&rest);
    Some(
        ChecksumScope {
            raw: raw_text,
            directory: Some(string_of(dir.as_slice())),
            patterns,
            recursive,
        },
    )
}

/// The lines of `s[i..]` (`str::lines`): split at `\n`, a `\r` before the
/// `\n` dropped, no empty line after a final `\n`.
pub open spec fn lines_from(s: Seq<char>, i: int) -> Seq<Seq<char>>
    decreases s.len() + 1 - i,
{
    if i < 0 || i >= s.len() {
        Seq::empty()
    } else {
        let j = char_from(s, '\n', i);
        proof {
            lemma_char_from(s, '\n', i);
        }
        let piece = s.subrange(i, j);
        let line = if j < s.len() && piece.len() > 0 && piece.last() == '\r' {
            piece.drop_last()
        } else {
            piece
        };
        seq![line] + lines_from(s, j + 1)
    }
}

/// The scopes described by the lines, in order.
pub open spec fn scopes_of(lines: Seq<Seq<char>>) -> Seq<ScopeModel>
    decreases lines.len(),
{
    if lines.len() == 0 {
        Seq::empty()
    } else {
        let rest = scopes_of(lines.drop_last());
        match spec_checksum_line(lines.last()) {
            Some(sc) => rest.push(sc),
            None => rest,
        }
    }
}

pub open spec fn scopes_view(v: Seq<ChecksumScope>) -> Seq<ScopeModel> {
    v.map_values(|s: ChecksumScope| scope_view(s))
}

/// Parses `checksum_manifest.txt`: one scope per line that describes one.
pub fn parse_checksum_manifest(text: &str) -> (r: Vec<ChecksumScope>)
    ensures
        scopes_view(r@) == scopes_of(lines_from(text@, 0)),
{
    let tc = chars_of(text);
    let ghost tv = tc@;
    let mut out: Vec<ChecksumScope> = Vec::new();
    let ghost mut lines: Seq<Seq<char>> = Seq::empty();
    let mut i: usize = 0;
    proof {
        assert(scopes_view(out@) =~= scopes_of(lines));
        assert(lines_from(tv, 0) =~= lines + lines_from(tv, 0));
    }
    while i < tc.len()
        invariant
            i <= tv.len(),
            tv == tc@,
            tv == text@,
            scopes_view(out@) == scopes_of(lines),
            lines_from(tv, 0) == lines + lines_from(tv, i as int),
        decreases tv.len() - i,
    {
        let mut j: usize = i;
        while j < tc.len() && tc[j] != '\n'
            invariant
                i <= j <= tv.len(),
                tv == tc@,
                char_from(tv, '\n', i as int) == char_from(tv, '\n', j as int),
            decreases tv.len() - j,
        {
            j = j + 1;
        }
        proof {
            lemma_char_from(tv, '\n', i as int);
        }
        let end: usize = if j < tc.len() && j > i && tc[j - 1] == '\r' {
            j - 1
        } else {
            j
        };
        let piece = slice_chars(tc.as_slice(), i, end);
        let ghost line = piece@;
        proof {
            let p = tv.subrange(i as int, j as int);
            if j < tv.len() && p.len() > 0 && p.last() == '\r' {
                assert(line =~= p.drop_last());
            } else {
                assert(line =~= p);
            }
            assert(lines_from(tv, i as int) =~= seq![line] + lines_from(tv, j + 1));
            assert(lines.push(line).drop_last() =~= lines);
        }
        let ghost before = scopes_view(out@);
        let line_text = string_of(piece.as_slice());
        if let Some(scope) = parse_checksum_line(line_text.as_str()) {
            out.push(scope);
            proof {
                assert(scopes_view(out@) =~= before.push(scope_view(scope)));
            }
        }
        proof {
            assert(lines + lines_from(tv, i as int) =~= lines.push(line) + lines_from(tv, j + 1));
            lines = lines.push(line);
        }
        if j >= tc.len() {
            proof {
                assert(lines_from(tv, j + 1) =~= Seq::<Seq<char>>::empty());
                assert(lines_from(tv, tv.len() as int) =~= Seq::<Seq<char>>::empty());
            }
            i = tc.len();
        } else {
            i = j + 1;
        }
    }
    proof {
        assert(lines_from(tv, i as int) =~= Seq::<Seq<char>>::empty());
        assert(lines + Seq::<Seq<char>>::empty() =~= lines);
    }
    out
}

// ── Steam app id ────────────────────────────────────────────────────────

/// A `u32` numeral as `u32::from_str` accepts it: an optional `+`, then one
/// or more decimal digits, with a value that fits.
pub open spec fn spec_parse_u32(s: Seq<char>) -> Option<u32> {
    let d = if s.len() > 0 && s[0] == '+' {
        s.skip(1)
    } else {
        s
    };
    if d.len() > 0 && all_digits(d) && digits_value(d) <= u32::MAX {
        Some(digits_value(d) as u32)
    } else {
        None
    }
}

/// Parses a `u32` numeral (`u32::from_str`).
pub fn parse_u32(text: &str) -> (r: Option<u32>)
    ensures
        r == spec_parse_u32(text@),
{
    let t = chars_of(text);
    let start: usize = if t.len() > 0 && t[0] == '+' {
        1
    } else {
        0
    };
    let d = slice_chars(t.as_slice(), start, t.len());
    proof {
        assert(d@ =~= if t@.len() > 0 && t@[0] == '+' {
            t@.skip(1)
        } else {
            t@
        });
    }
    if d.len() == 0 {
        return None;
    }
    let ghost tt = text@;
    let ghost dd = if tt.len() > 0 && tt[0] == '+' {
        tt.skip(1)
    } else {
        tt
    };
    let mut value: u64 = 0;
    let mut i: usize = 0;
    while i < d.len()
        invariant
            tt == text@,
            d@ == dd,
            dd.len() > 0,
            spec_parse_u32(tt) == (if dd.len() > 0 && all_digits(dd) && digits_value(dd) <= u32::MAX {
                Some(digits_value(dd) as u32)
            } else {
                None
            }),
            i <= d@.len(),
            all_digits(d@.take(i as int)),
            value == digits_value(d@.take(i as int)),
            value <= u32::MAX,
        decreases d@.len() - i,
    {
        let c = d[i];
        proof {
            assert(d@.take(i + 1).drop_last() =~= d@.take(i as int));
        }
        if !('0' <= c && c <= '9') {
            proof {
                assert(!crate::numbers::is_digit(d@[i as int]));
                assert(!all_digits(d@));
            }
            return None;
        }
        let digit = (c as u64) - ('0' as u64);
        let next = value * 10 + digit;
        proof {
            assert(d@.take(i + 1) =~= d@.take(i as int).push(c));
            crate::numbers::lemma_digits_value_append(d@.take(i as int), c);
            assert(all_digits(d@.take(i + 1)));
        }
        if next > 4294967295 {
            proof {
                if all_digits(d@) {
                    crate::numbers::lemma_digits_value_prefix(d@, i as int + 1);
                }
            }
            return None;
        }
        value = next;
        i = i + 1;
    }
    proof {
        assert(d@.take(i as int) =~= d@);
    }
    Some(value as u32)
}

/// The app id in `steam_appid.txt`: its trimmed text as a `u32`.
pub fn parse_steam_appid(text: &str) -> (r: Option<u32>)
    ensures
        r == spec_parse_u32(trim_seq(text@)),
{
    let tc = chars_of(text);
    let t = trim_chars(tc.as_slice());
    parse_u32(string_of(t.as_slice()).as_str())
}

// ── Launcher settings ───────────────────────────────────────────────────

/// The value of the entry `k` of an object.
pub open spec fn entry_value(es: Seq<(Seq<char>, SFact)>, k: Seq<char>) -> Option<SFact>
    decreases es.len(),
{
    if es.len() == 0 {
        None
    } else if es[0].0 == k {
        Some(es[0].1)
    } else {
        entry_value(es.drop_first(), k)
    }
}

pub open spec fn text_of(v: Option<SFact>) -> Option<Seq<char>> {
    match v {
        Some(SFact::Text(s)) => Some(s),
        _ => None,
    }
}

/// The string held by the first of `keys` (in that order) that the object
/// has with a string value.
pub open spec fn first_keyed_text(es: Seq<(Seq<char>, SFact)>, keys: Seq<Seq<char>>) -> Option<Seq<char>>
    decreases keys.len(),
{
    if keys.len() == 0 {
        None
    } else {
        or_else(text_of(entry_value(es, keys[0])), first_keyed_text(es, keys.drop_first()))
    }
}

/// Depth-first search for a string under one of `keys`: an object's own
/// entries first, then its values in order; a list's items in order.
pub open spec fn first_string(v: SFact, keys: Seq<Seq<char>>) -> Option<Seq<char>>
    decreases v, 1int,
{
    match v {
        SFact::Object(es, _) => or_else(first_keyed_text(es, keys), first_string_in_entries(es, keys)),
        SFact::List(items) => first_string_in_items(items, keys),
        _ => None,
    }
}

pub open spec fn first_string_in_entries(es: Seq<(Seq<char>, SFact)>, keys: Seq<Seq<char>>) -> Option<
    Seq<char>,
>
    decreases es, 0int,
{
    if es.len() == 0 {
        None
    } else {
        proof {
            assert(decreases_to!(es => es[0]));
            assert(decreases_to!(es[0] => es[0].1));
        }
        or_else(first_string(es[0].1, keys), first_string_in_entries(es.drop_first(), keys))
    }
}

pub open spec fn first_string_in_items(items: Seq<SFact>, keys: Seq<Seq<char>>) -> Option<Seq<char>>
    decreases items, 0int,
{
    if items.len() == 0 {
        None
    } else {
        or_else(first_string(items[0], keys), first_string_in_items(items.drop_first(), keys))
    }
}

fn keyed_text(es: &Vec<(String, FactValue)>, keys: &[&str]) -> (r: Option<String>)
    ensures
        opt_str_view(r) == first_keyed_text(entries_view(es@), crate::clausewitz::path_view(keys@)),
{
    let ghost ev = entries_view(es@);
    let ghost kv = crate::clausewitz::path_view(keys@);
    proof {
        lemma_entries_view(es@);
        assert(kv.skip(0) =~= kv);
    }
    let mut i: usize = 0;
    while i < keys.len()
        invariant
            i <= keys@.len(),
            ev == entries_view(es@),
            ev.len() == es@.len(),
            forall|k: int| 0 <= k < es@.len() ==> #[trigger] ev[k] == (es@[k].0@, fact_view(es@[k].1)),
            kv == crate::clausewitz::path_view(keys@),
            kv.len() == keys@.len(),
            first_keyed_text(ev, kv) == first_keyed_text(ev, kv.skip(i as int)),
        decreases keys@.len() - i,
    {
        proof {
            assert(kv.skip(i as int)[0] == keys@[i as int]@);
            assert(kv.skip(i as int).drop_first() =~= kv.skip(i + 1));
        }
        let key = keys[i];
        let mut j: usize = 0;
        proof {
            assert(ev.skip(0) =~= ev);
        }
        while j < es.len() && !crate::text::str_eq(es[j].0.as_str(), key)
            invariant
                j <= es@.len(),
                ev == entries_view(es@),
                ev.len() == es@.len(),
                forall|k: int| 0 <= k < es@.len() ==> #[trigger] ev[k] == (es@[k].0@, fact_view(es@[k].1)),
                entry_value(ev, key@) == entry_value(ev.skip(j as int), key@),
            decreases es@.len() - j,
        {
            proof {
                assert(ev.skip(j as int)[0] == ev[j as int]);
                assert(ev.skip(j as int).drop_first() =~= ev.skip(j + 1));
            }
            j = j + 1;
        }
        if j < es.len() {
            proof {
                assert(ev.skip(j as int)[0] == ev[j as int]);
                assert(entry_value(ev, key@) == Some(fact_view(es@[j as int].1)));
            }
            if let FactValue::Text(s) = &es[j].1 {
                return Some(s.clone());
            }
        } else {
            proof {
                assert(ev.skip(j as int) =~= Seq::<(Seq<char>, SFact)>::empty());
            }
        }
        i = i + 1;
    }
    proof {
        assert(kv.skip(i as int) =~= Seq::<Seq<char>>::empty());
    }
    None
}

/// The first string found under one of `keys` (see [`first_string`]).
pub fn find_first_string(value: &FactValue, keys: &[&str]) -> (r: Option<String>)
    ensures
        opt_str_view(r) == first_string(fact_view(*value), crate::clausewitz::path_view(keys@)),
    decreases value,
{
    let ghost kv = crate::clausewitz::path_view(keys@);
    match value {
        FactValue::Object(es, _) => {
            if let Some(found) = keyed_text(es, keys) {
                return Some(found);
            }
            let ghost ev = entries_view(es@);
            proof {
                lemma_entries_view(es@);
                assert(ev.skip(0) =~= ev);
            }
            let mut i: usize = 0;
            while i < es.len()
                invariant
                    i <= es@.len(),
                    *value == FactValue::Object(*es, value->Object_1),
                    ev == entries_view(es@),
                    ev.len() == es@.len(),
                    forall|k: int| 0 <= k < es@.len() ==> #[trigger] ev[k] == (es@[k].0@, fact_view(es@[k].1)),
                    kv == crate::clausewitz::path_view(keys@),
                    first_keyed_text(ev, kv) is None,
                    first_string_in_entries(ev, kv) == first_string_in_entries(ev.skip(i as int), kv),
                decreases es@.len() - i,
            {
                proof {
                    assert(ev.skip(i as int)[0] == ev[i as int]);
                    assert(ev.skip(i as int).drop_first() =~= ev.skip(i + 1));
                    assert(decreases_to!(*value => value->Object_0));
                    assert(decreases_to!(*es => es@));
                    assert(decreases_to!(es@ => es@[i as int]));
                    assert(decreases_to!(es@[i as int] => es@[i as int].1));
                }
                if let Some(found) = find_first_string(&es[i].1, keys) {
                    return Some(found);
                }
                i = i + 1;
            }
            proof {
                assert(ev.skip(i as int) =~= Seq::<(Seq<char>, SFact)>::empty());
            }
            None
        },
        FactValue::List(items) => {
            let ghost iv = facts_view(items@);
            proof {
                lemma_facts_view(items@);
                assert(iv.skip(0) =~= iv);
            }
            let mut i: usize = 0;
            while i < items.len()
                invariant
                    i <= items@.len(),
                    *value == FactValue::List(*items),
                    iv == facts_view(items@),
                    iv.len() == items@.len(),
                    forall|k: int| 0 <= k < items@.len() ==> #[trigger] iv[k] == fact_view(items@[k]),
                    kv == crate::clausewitz::path_view(keys@),
                    first_string_in_items(iv, kv) == first_string_in_items(iv.skip(i as int), kv),
                decreases items@.len() - i,
            {
                proof {
                    assert(iv.skip(i as int)[0] == iv[i as int]);
                    assert(iv.skip(i as int).drop_first() =~= iv.skip(i + 1));
                    assert(decreases_to!(*value => value->List_0));
                    assert(decreases_to!(*items => items@));
                    assert(decreases_to!(items@ => items@[i as int]));
                }
                if let Some(found) = find_first_string(&items[i], keys) {
                    return Some(found);
                }
                i = i + 1;
            }
            proof {
                assert(iv.skip(i as int) =~= Seq::<SFact>::empty());
            }
            None
        },
        _ => None,
    }
}

// ── The install summary ─────────────────────────────────────────────────

/// What an install directory holds.
#[derive(Debug, Default)]
pub struct InstallSummary {
    pub root: String,
    pub steam_appid: Option<u32>,
    pub version: Option<String>,
    pub raw_version: Option<String>,
    pub checksum_manifest: Vec<ChecksumScope>,
    pub issues: Vec<String>,
}

pub open spec fn version_keys() -> Seq<Seq<char>> {
    seq!["version"@, "display_version"@, "game_version"@, "gameVersion"@]
}

pub open spec fn raw_version_keys() -> Seq<Seq<char>> {
    seq!["raw_version"@, "rawVersion"@, "raw_game_version"@, "rawGameVersion"@]
}

/// Summarises an install from the files read in it: `steam_appid.txt` and
/// `checksum_manifest.txt` when present, and `launcher-settings.json` when
/// it could be read as JSON.
pub fn install_summary(
    root: String,
    steam_appid_text: Option<&str>,
    checksum_manifest_text: Option<&str>,
    launcher_settings: Option<&FactValue>,
) -> (r: InstallSummary)
    ensures
        r.root@ == root@,
        r.steam_appid == match steam_appid_text {
            Some(t) => spec_parse_u32(trim_seq(t@)),
            None => None,
        },
        scopes_view(r.checksum_manifest@) == match checksum_manifest_text {
            Some(t) => scopes_of(lines_from(t@, 0)),
            None => Seq::empty(),
        },
        match launcher_settings {
            Some(v) => {
                &&& opt_str_view(r.version) == first_string(fact_view(*v), version_keys())
                &&& opt_str_view(r.raw_version) == or_else(
                    first_string(fact_view(*v), raw_version_keys()),
                    first_string(fact_view(*v), version_keys()),
                )
                &&& r.issues@.len() == 0
            },
            None => {
                &&& r.version is None
                &&& r.raw_version is None
                &&& views(r.issues@) == seq!["launcher-settings.json missing or unreadable"@]
            },
        },
{
    let steam_appid = match steam_appid_text {
        Some(t) => parse_steam_appid(t),
        None => None,
    };
    let checksum_manifest = match checksum_manifest_text {
        Some(t) => parse_checksum_manifest(t),
        None => {
            let v: Vec<ChecksumScope> = Vec::new();
            proof {
                assert(scopes_view(v@) =~= Seq::<ScopeModel>::empty());
            }
            v
        },
    };
    let mut issues: Vec<String> = Vec::new();
    let mut version: Option<String> = None;
    let mut raw_version: Option<String> = None;
    match launcher_settings {
        Some(v) => {
            let vk = ["version", "display_version", "game_version", "gameVersion"];
            let rk = ["raw_version", "rawVersion", "raw_game_version", "rawGameVersion"];
            proof {
                assert(crate::clausewitz::path_view(vk@) =~= version_keys());
                assert(crate::clausewitz::path_view(rk@) =~= raw_version_keys());
            }
            version = find_first_string(v, &vk);
            raw_version = match find_first_string(v, &rk) {
                Some(r) => Some(r),
                None => match &version {
                    Some(x) => Some(x.clone()),
                    None => None,
                },
            };
        },
        None => {
            issues.push("launcher-settings.json missing or unreadable".to_owned());
            proof {
                assert(views(issues@) =~= seq!["launcher-settings.json missing or unreadable"@]);
            }
        },
    }
    InstallSummary { root, steam_appid, version, raw_version, checksum_manifest, issues }
}

} // verus!
