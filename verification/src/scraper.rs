//! Listing-page and game-page parsing: titles, versions, links and the
//! page details that listing anchors never show.
use vstd::prelude::*;
use crate::models::{copy_opt_string, games_view, SourceGame, SourceGameV, SourceLabel};
use crate::slug::byte_len;
pub use crate::page::{
    checked_download_urls, checked_page_details, extract_download_urls, extract_page_details,
    page_details_defined,
};
use crate::text::{
    chars_of, collapse_ws, collapse_ws_range, ends_with, eq_ignore_case, index_of_char,
    index_of_from, is_ascii_digit, is_digit, lower_of, lower_vec, match_at, occurs_at, rfind,
    rfind_chars, split_whitespace_words, starts_with, starts_with_chars, string_of, trim,
    trim_bounds, trim_start_char, trim_start_char_vec, trimmed_vec, vec_of_range, vecs_view,
    ws_words, ascii_lower, to_ascii_lower, find, find_chars, contains, contains_chars,
};

verus! {

broadcast use vstd::string::group_string_axioms;

// ---------------------------------------------------------------------------
// HTML entities
// ---------------------------------------------------------------------------

/// The entities decoded in scraped titles, in the order they are tried.
pub open spec fn entity_table() -> Seq<(Seq<char>, char)> {
    seq![
        (seq!['&', '#', '0', '3', '9', ';'], '\''),
        (seq!['&', '#', '3', '9', ';'], '\''),
        (seq!['&', '#', 'x', '2', '7', ';'], '\''),
        (seq!['&', 'q', 'u', 'o', 't', ';'], '"'),
        (seq!['&', 'a', 'm', 'p', ';'], '&'),
        (seq!['&', 'l', 't', ';'], '<'),
        (seq!['&', 'g', 't', ';'], '>'),
        (seq!['&', 'n', 'b', 's', 'p', ';'], ' '),
        (seq!['&', 'r', 'a', 'q', 'u', 'o', ';'], '\u{bb}'),
        (seq!['&', 'l', 'a', 'q', 'u', 'o', ';'], '\u{ab}'),
        (seq!['&', 'e', 'a', 'c', 'u', 't', 'e', ';'], '\u{e9}'),
        (seq!['&', '#', '8', '2', '1', '1', ';'], '-'),
        (seq!['&', '#', '8', '2', '1', '2', ';'], '-'),
    ]
}

/// The first entity of the table that `s` starts with, from entry `k` on.
pub open spec fn entity_at(s: Seq<char>, k: int) -> Option<(Seq<char>, char)>
    decreases 13 - k,
{
    if k < 0 || k >= 13 {
        None
    } else if starts_with(s, entity_table()[k].0) {
        Some(entity_table()[k])
    } else {
        entity_at(s, k + 1)
    }
}

/// Entities replaced by their character, every other character kept.
pub open spec fn decode_raw(s: Seq<char>) -> Seq<char>
    decreases s.len(),
{
    if s.len() == 0 {
        Seq::empty()
    } else if s[0] == '&' && entity_at(s, 0) is Some {
        let (e, c) = entity_at(s, 0).unwrap();
        if 0 < e.len() <= s.len() {
            seq![c] + decode_raw(s.skip(e.len() as int))
        } else {
            seq![s[0]] + decode_raw(s.drop_first())
        }
    } else {
        seq![s[0]] + decode_raw(s.drop_first())
    }
}

/// HTML entities in scraped text decoded, then trimmed.
pub open spec fn decode_entities_spec(s: Seq<char>) -> Seq<char> {
    trim(decode_raw(s))
}

proof fn lemma_entity_at(s: Seq<char>, k: int)
    ensures
        entity_at(s, k) matches Some(p) ==> starts_with(s, p.0),
    decreases 13 - k,
{
    if 0 <= k < 13 && !starts_with(s, entity_table()[k].0) {
        lemma_entity_at(s, k + 1);
    }
}

fn entity_chars() -> (t: Vec<(Vec<char>, char)>)
    ensures
        t.len() == 13,
        forall|k: int| 0 <= k < 13 ==> (#[trigger] t@[k]).0@ == entity_table()[k].0 && t@[k].1
            == entity_table()[k].1,
{
    let t = vec![
        (vec!['&', '#', '0', '3', '9', ';'], '\''),
        (vec!['&', '#', '3', '9', ';'], '\''),
        (vec!['&', '#', 'x', '2', '7', ';'], '\''),
        (vec!['&', 'q', 'u', 'o', 't', ';'], '"'),
        (vec!['&', 'a', 'm', 'p', ';'], '&'),
        (vec!['&', 'l', 't', ';'], '<'),
        (vec!['&', 'g', 't', ';'], '>'),
        (vec!['&', 'n', 'b', 's', 'p', ';'], ' '),
        (vec!['&', 'r', 'a', 'q', 'u', 'o', ';'], '\u{bb}'),
        (vec!['&', 'l', 'a', 'q', 'u', 'o', ';'], '\u{ab}'),
        (vec!['&', 'e', 'a', 'c', 'u', 't', 'e', ';'], '\u{e9}'),
        (vec!['&', '#', '8', '2', '1', '1', ';'], '-'),
        (vec!['&', '#', '8', '2', '1', '2', ';'], '-'),
    ];
    assert forall|k: int| 0 <= k < 13 implies (#[trigger] t@[k]).0@ == entity_table()[k].0 && t@[k].1
        == entity_table()[k].1 by {
        assert(t@[0].0@ =~= entity_table()[0].0);
        assert(t@[1].0@ =~= entity_table()[1].0);
        assert(t@[2].0@ =~= entity_table()[2].0);
        assert(t@[3].0@ =~= entity_table()[3].0);
        assert(t@[4].0@ =~= entity_table()[4].0);
        assert(t@[5].0@ =~= entity_table()[5].0);
        assert(t@[6].0@ =~= entity_table()[6].0);
        assert(t@[7].0@ =~= entity_table()[7].0);
        assert(t@[8].0@ =~= entity_table()[8].0);
        assert(t@[9].0@ =~= entity_table()[9].0);
        assert(t@[10].0@ =~= entity_table()[10].0);
        assert(t@[11].0@ =~= entity_table()[11].0);
        assert(t@[12].0@ =~= entity_table()[12].0);
    }
    t
}

fn decode_raw_chars(v: &Vec<char>) -> (out: Vec<char>)
    ensures
        out@ == decode_raw(v@),
{
    let table = entity_chars();
    let mut out: Vec<char> = Vec::new();
    let mut i: usize = 0;
    assert(v@.skip(0) =~= v@);
    while i < v.len()
        invariant
            i <= v.len(),
            table.len() == 13,
            forall|k: int| 0 <= k < 13 ==> (#[trigger] table@[k]).0@ == entity_table()[k].0
                && table@[k].1 == entity_table()[k].1,
            decode_raw(v@) == out@ + decode_raw(v@.skip(i as int)),
        decreases v.len() - i,
    {
        let ghost rest = v@.skip(i as int);
        assert(rest[0] == v@[i as int]);
        if v[i] == '&' {
            let mut k: usize = 0;
            let mut hit: Option<usize> = None;
            while k < 13
                invariant
                    k <= 13,
                    table.len() == 13,
                    i < v.len(),
                    rest == v@.skip(i as int),
                    forall|x: int| 0 <= x < 13 ==> (#[trigger] table@[x]).0@ == entity_table()[x].0
                        && table@[x].1 == entity_table()[x].1,
                    hit is None ==> entity_at(rest, 0) == entity_at(rest, k as int),
                    hit matches Some(x) ==> x < 13 && entity_at(rest, 0) == Some(entity_table()[x as int]),
                decreases 13 - k,
            {
                if hit.is_none() {
                    let m = match_at(v, &table[k].0, i);
                    proof {
                        if m {
                            assert(rest.take(table@[k as int].0@.len() as int) =~= v@.subrange(
                                i as int,
                                i + table@[k as int].0@.len(),
                            ));
                        }
                        if starts_with(rest, entity_table()[k as int].0) {
                            assert(rest.take(table@[k as int].0@.len() as int) =~= v@.subrange(
                                i as int,
                                i + table@[k as int].0@.len(),
                            ));
                        }
                    }
                    if m {
                        hit = Some(k);
                    }
                }
                k += 1;
            }
            match hit {
                Some(x) => {
                    let len = table[x].0.len();
                    proof {
                        lemma_entity_at(rest, 0);
                    }
                    if len > 0 {
                        out.push(table[x].1);
                        assert(rest.skip(len as int) =~= v@.skip(i + len));
                        assert(decode_raw(v@) == out@ + decode_raw(v@.skip(i + len))) by {
                            assert(seq![table@[x as int].1] + decode_raw(rest.skip(len as int)) == decode_raw(rest));
                        }
                        i += len;
                    } else {
                        out.push(v[i]);
                        assert(rest.drop_first() =~= v@.skip(i + 1));
                        i += 1;
                    }
                },
                None => {
                    out.push(v[i]);
                    assert(rest.drop_first() =~= v@.skip(i + 1));
                    i += 1;
                },
            }
        } else {
            out.push(v[i]);
            assert(rest.drop_first() =~= v@.skip(i + 1));
            i += 1;
        }
    }
    out
}

/// `decode_entities` on a character vector.
pub fn decode_entities_vec(v: &Vec<char>) -> (out: Vec<char>)
    ensures
        out@ == decode_entities_spec(v@),
{
    let d = decode_raw_chars(v);
    trimmed_vec(&d)
}

/// Decode HTML entities in scraped anchor text before any further processing,
/// so titles like "Birds Aren&#039;t Real" produce clean slugs.
pub fn decode_entities(text: &str) -> (r: String)
    ensures
        r@ == decode_entities_spec(text@),
{
    let v = chars_of(text);
    let d = decode_raw_chars(&v);
    let t = trimmed_vec(&d);
    string_of(&t)
}

} // verus!

verus! {

// ---------------------------------------------------------------------------
// Version markers in titles
// ---------------------------------------------------------------------------

pub open spec fn build_prefix() -> Seq<char> {
    seq!['b', 'u', 'i', 'l', 'd', ' ']
}

/// After an optional "build " prefix and leading 'v's, a digit follows.
pub open spec fn looks_like_version_spec(s: Seq<char>) -> bool {
    let l = lower_of(trim(s));
    let l2 = if starts_with(l, build_prefix()) {
        trim(l.skip(6))
    } else {
        l
    };
    let l3 = trim_start_char(l2, 'v');
    l3.len() > 0 && is_digit(l3[0])
}

/// Lower-cased marker without a "build " prefix or leading 'v's.
pub open spec fn normalize_version_spec(s: Seq<char>) -> Seq<char> {
    let l = lower_of(trim(s));
    let wb = if starts_with(l, build_prefix()) {
        l.skip(6)
    } else {
        l
    };
    trim_start_char(wb, 'v')
}

/// `s` up to its first '+'.
pub open spec fn before_plus(s: Seq<char>) -> Seq<char> {
    match index_of_from(s, '+', 0) {
        Some(i) => s.take(i),
        None => s,
    }
}

/// The version in the last `open..close` group, when it looks like one.
pub open spec fn group_version(t: Seq<char>, open: char, close: char) -> Option<Seq<char>> {
    match (rfind(t, seq![open]), rfind(t, seq![close])) {
        (Some(o), Some(c)) => if c > o {
            let inner = trim(before_plus(trim(t.subrange(o + 1, c))));
            if looks_like_version_spec(inner) {
                Some(normalize_version_spec(inner))
            } else {
                None
            }
        } else {
            None
        },
        _ => None,
    }
}

/// Trailing characters that are neither ASCII digits nor '.' removed.
pub open spec fn trim_end_nonversion(s: Seq<char>) -> Seq<char>
    decreases s.len(),
{
    if s.len() > 0 && !is_digit(s.last()) && s.last() != '.' {
        trim_end_nonversion(s.drop_last())
    } else {
        s
    }
}

/// "Version 1.2": the last window (word, next word) whose word is
/// "version" and whose next word looks like a version; windows `< k` only.
pub open spec fn version_word_scan(ws: Seq<Seq<char>>, k: int) -> Option<Seq<char>>
    decreases k,
{
    if k <= 0 || k >= ws.len() {
        None
    } else {
        let i = k - 1;
        let cand = trim_end_nonversion(ws[i + 1]);
        if eq_ignore_case(ws[i], "version"@) && looks_like_version_spec(cand) {
            Some(normalize_version_spec(cand))
        } else {
            version_word_scan(ws, k - 1)
        }
    }
}

/// "v2.3": among the last three words (last first), one that lower-cases to
/// 'v' + digit, trailing noise removed.
pub open spec fn v_token_scan(ws: Seq<Seq<char>>, j: int) -> Option<Seq<char>>
    decreases 3 - j,
{
    if j < 0 || j >= 3 || j >= ws.len() {
        None
    } else {
        let l = trim_end_nonversion(lower_of(ws[ws.len() - 1 - j]));
        if l.len() >= 2 && l[0] == 'v' && is_digit(l[1]) {
            Some(l.skip(1))
        } else {
            v_token_scan(ws, j + 1)
        }
    }
}

/// Parse the version marker from a title like "Elden Ring [v1.10]",
/// "Game (Build 12345)", "Game Version 4" or "Game v2.3".
pub open spec fn version_from_title_spec(title: Seq<char>) -> Option<Seq<char>> {
    let t = trim(title);
    if group_version(t, '[', ']') is Some {
        group_version(t, '[', ']')
    } else if group_version(t, '(', ')') is Some {
        group_version(t, '(', ')')
    } else {
        let ws = ws_words(t);
        if version_word_scan(ws, ws.len() - 1) is Some {
            version_word_scan(ws, ws.len() - 1)
        } else {
            v_token_scan(ws, 0)
        }
    }
}

fn starts_with_build(l: &Vec<char>) -> (r: bool)
    ensures
        r == starts_with(l@, build_prefix()),
{
    let b = vec!['b', 'u', 'i', 'l', 'd', ' '];
    assert(b@ =~= build_prefix());
    starts_with_chars(l, &b)
}

fn looks_like_version(s: &Vec<char>) -> (r: bool)
    ensures
        r == looks_like_version_spec(s@),
{
    let t = trimmed_vec(s);
    let l = lower_vec(&t);
    let l2 = if starts_with_build(&l) {
        let rest = vec_of_range(&l, 6, l.len());
        assert(rest@ =~= l@.skip(6));
        trimmed_vec(&rest)
    } else {
        l
    };
    let l3 = trim_start_char_vec(&l2, 'v');
    l3.len() > 0 && is_ascii_digit(l3[0])
}

fn normalize_version(s: &Vec<char>) -> (r: Vec<char>)
    ensures
        r@ == normalize_version_spec(s@),
{
    let t = trimmed_vec(s);
    let l = lower_vec(&t);
    let wb = if starts_with_build(&l) {
        let rest = vec_of_range(&l, 6, l.len());
        assert(rest@ =~= l@.skip(6));
        rest
    } else {
        l
    };
    trim_start_char_vec(&wb, 'v')
}

fn rfind_char(v: &Vec<char>, c: char) -> (r: Option<usize>)
    ensures
        r matches Some(i) ==> rfind(v@, seq![c]) == Some(i as int) && i < v.len(),
        r is None ==> rfind(v@, seq![c]) is None,
{
    let n = vec![c];
    assert(n@ =~= seq![c]);
    let r = rfind_chars(v, &n);
    proof {
        if let Some(i) = r {
            crate::text::lemma_rfind_upto(v@, seq![c], v@.len() - 1);
        }
    }
    r
}

fn group_version_of(t: &Vec<char>, open: char, close: char) -> (r: Option<Vec<char>>)
    ensures
        r matches Some(x) ==> group_version(t@, open, close) == Some(x@),
        r is None ==> group_version(t@, open, close) is None,
{
    match (rfind_char(t, open), rfind_char(t, close)) {
        (Some(o), Some(c)) => {
            if c > o {
                let inner0 = vec_of_range(t, o + 1, c);
                let inner1 = trimmed_vec(&inner0);
                let head = match index_of_char(&inner1, '+', 0) {
                    Some(p) => {
                        let h = vec_of_range(&inner1, 0, p);
                        assert(h@ =~= inner1@.take(p as int));
                        h
                    },
                    None => inner1,
                };
                let inner = trimmed_vec(&head);
                if looks_like_version(&inner) {
                    Some(normalize_version(&inner))
                } else {
                    None
                }
            } else {
                None
            }
        },
        _ => None,
    }
}

fn trim_end_nonversion_vec(s: &Vec<char>) -> (r: Vec<char>)
    ensures
        r@ == trim_end_nonversion(s@),
{
    let mut n = s.len();
    assert(s@.take(n as int) =~= s@);
    while n > 0 && !is_ascii_digit(s[n - 1]) && s[n - 1] != '.'
        invariant
            n <= s.len(),
            trim_end_nonversion(s@) == trim_end_nonversion(s@.take(n as int)),
        decreases n,
    {
        assert(s@.take(n as int).drop_last() =~= s@.take(n - 1));
        n -= 1;
    }
    let r = vec_of_range(s, 0, n);
    assert(r@ =~= s@.take(n as int));
    r
}

fn version_word(ws: &Vec<Vec<char>>) -> (r: Option<Vec<char>>)
    ensures
        r matches Some(x) ==> version_word_scan(vecs_view(ws@), ws.len() - 1) == Some(x@),
        r is None ==> version_word_scan(vecs_view(ws@), ws.len() - 1) is None,
{
    let ghost wv = vecs_view(ws@);
    if ws.len() < 2 {
        return None;
    }
    let word = chars_of("version");
    let mut k = ws.len() - 1;
    while k > 0
        invariant
            k <= ws.len() - 1,
            ws.len() >= 2,
            wv == vecs_view(ws@),
            word@ == "version"@,
            version_word_scan(wv, ws.len() - 1) == version_word_scan(wv, k as int),
        decreases k,
    {
        let i = k - 1;
        let cand = trim_end_nonversion_vec(&ws[i + 1]);
        let a = string_of(&ws[i]);
        let w = string_of(&word);
        if crate::text::eq_ignore_ascii_case(a.as_str(), w.as_str()) && looks_like_version(&cand) {
            return Some(normalize_version(&cand));
        }
        k -= 1;
    }
    None
}

fn v_token(ws: &Vec<Vec<char>>) -> (r: Option<Vec<char>>)
    ensures
        r matches Some(x) ==> v_token_scan(vecs_view(ws@), 0) == Some(x@),
        r is None ==> v_token_scan(vecs_view(ws@), 0) is None,
{
    let ghost wv = vecs_view(ws@);
    let mut j: usize = 0;
    while j < 3 && j < ws.len()
        invariant
            j <= 3,
            wv == vecs_view(ws@),
            v_token_scan(wv, 0) == v_token_scan(wv, j as int),
        decreases 3 - j,
    {
        let low = lower_vec(&ws[ws.len() - 1 - j]);
        let l = trim_end_nonversion_vec(&low);
        if l.len() >= 2 && l[0] == 'v' && is_ascii_digit(l[1]) {
            let d = vec_of_range(&l, 1, l.len());
            assert(d@ =~= l@.skip(1));
            return Some(d);
        }
        j += 1;
    }
    None
}

pub fn version_from_title_chars(title: &Vec<char>) -> (r: Option<Vec<char>>)
    ensures
        r matches Some(x) ==> version_from_title_spec(title@) == Some(x@),
        r is None ==> version_from_title_spec(title@) is None,
{
    let t = trimmed_vec(title);
    if let Some(v) = group_version_of(&t, '[', ']') {
        return Some(v);
    }
    if let Some(v) = group_version_of(&t, '(', ')') {
        return Some(v);
    }
    let ws = split_whitespace_words(&t);
    if let Some(v) = version_word(&ws) {
        return Some(v);
    }
    v_token(&ws)
}

/// Parse the downloadable-file version marker from a Steamrip-style title
/// like "Elden Ring [v1.10]" or "Game Name (Build 12345)".
pub fn version_from_title(title: &str) -> (r: Option<String>)
    ensures
        r.deep_view() == version_from_title_spec(title@),
{
    let v = chars_of(title);
    match version_from_title_chars(&v) {
        Some(x) => Some(string_of(&x)),
        None => None,
    }
}

} // verus!

verus! {

/// Remove the last `open..close` group (when it is not blank).
pub open spec fn remove_group_spec(s: Seq<char>, open: char, close: char) -> Option<Seq<char>> {
    match rfind(s, seq![open]) {
        None => None,
        Some(o) => match index_of_from(s, close, o) {
            None => None,
            Some(c) => if trim(s.subrange(o + 1, c)).len() == 0 {
                None
            } else {
                Some(s.take(o) + s.skip(c + 1))
            },
        },
    }
}

/// Marketing suffixes cut from listing titles, most specific first.
pub open spec fn title_suffixes() -> Seq<Seq<char>> {
    seq![
        " free download"@,
        " full version"@,
        " full game"@,
        " download"@,
        " pc game"@,
        " pc"@,
        " full"@,
    ]
}

/// `s` ends with `p`, ignoring ASCII case.
pub open spec fn ends_with_ignore_case(s: Seq<char>, p: Seq<char>) -> bool {
    p.len() <= s.len() && eq_ignore_case(s.skip(s.len() - p.len()), p)
}

/// The first suffix (from entry `k` on) the text ends with, cut off.
pub open spec fn cut_suffix_from(s: Seq<char>, k: int) -> Seq<char>
    decreases 7 - k,
{
    if k < 0 || k >= 7 {
        s
    } else if ends_with_ignore_case(s, title_suffixes()[k]) {
        s.take(s.len() - title_suffixes()[k].len())
    } else {
        cut_suffix_from(s, k + 1)
    }
}

/// A listing anchor turned into a clean title plus a version marker.
pub open spec fn clean_listing_title_spec(raw: Seq<char>) -> (Seq<char>, Option<Seq<char>>) {
    let text = decode_entities_spec(raw);
    let v1 = version_from_title_spec(text);
    let a = match remove_group_spec(text, '[', ']') {
        Some(x) => x,
        None => text,
    };
    let b = match remove_group_spec(a, '(', ')') {
        Some(x) => x,
        None => a,
    };
    let c = cut_suffix_from(trim(b), 0);
    let v = if v1 is None {
        version_from_title_spec(c)
    } else {
        v1
    };
    (collapse_ws(c), v)
}

fn remove_group(s: &Vec<char>, open: char, close: char) -> (r: Option<Vec<char>>)
    requires
        open != close,
    ensures
        r matches Some(x) ==> remove_group_spec(s@, open, close) == Some(x@),
        r is None ==> remove_group_spec(s@, open, close) is None,
{
    let o = match rfind_char(s, open) {
        Some(o) => o,
        None => return None,
    };
    let c = match index_of_char(s, close, o) {
        Some(c) => c,
        None => return None,
    };
    proof {
        lemma_index_of_from(s@, close, o as int);
        crate::text::lemma_rfind_upto(s@, seq![open], s@.len() - 1);
        assert(s@.subrange(o as int, o + 1)[0] == s@[o as int]);
    }
    let inner = vec_of_range(s, o + 1, c);
    let t = trimmed_vec(&inner);
    if t.len() == 0 {
        return None;
    }
    let mut out = vec_of_range(s, 0, o);
    let mut tail = vec_of_range(s, c + 1, s.len());
    out.append(&mut tail);
    assert(out@ =~= s@.take(o as int) + s@.skip(c + 1));
    Some(out)
}

proof fn lemma_index_of_from(s: Seq<char>, c: char, from: int)
    ensures
        index_of_from(s, c, from) matches Some(i) ==> from <= i < s.len() && s[i] == c,
    decreases s.len() - from,
{
    if 0 <= from < s.len() && s[from] != c {
        lemma_index_of_from(s, c, from + 1);
    }
}

fn suffix_chars() -> (t: Vec<Vec<char>>)
    ensures
        vecs_view(t@) == title_suffixes(),
{
    let t = vec![
        chars_of(" free download"),
        chars_of(" full version"),
        chars_of(" full game"),
        chars_of(" download"),
        chars_of(" pc game"),
        chars_of(" pc"),
        chars_of(" full"),
    ];
    assert(vecs_view(t@) =~= title_suffixes());
    t
}

fn ends_with_ignore_case_chars(s: &Vec<char>, p: &Vec<char>) -> (r: bool)
    ensures
        r == ends_with_ignore_case(s@, p@),
{
    if p.len() > s.len() {
        return false;
    }
    let off = s.len() - p.len();
    let mut i: usize = 0;
    while i < p.len()
        invariant
            off + p.len() == s.len(),
            i <= p.len(),
            forall|k: int| 0 <= k < i ==> ascii_lower(#[trigger] s@.skip(off as int)[k]) == ascii_lower(p@[k]),
        decreases p.len() - i,
    {
        if to_ascii_lower(s[off + i]) != to_ascii_lower(p[i]) {
            assert(s@.skip(off as int)[i as int] == s@[off + i]);
            return false;
        }
        assert(s@.skip(off as int)[i as int] == s@[off + i]);
        i += 1;
    }
    true
}

fn cut_suffix(s: Vec<char>) -> (r: Vec<char>)
    ensures
        r@ == cut_suffix_from(s@, 0),
{
    let t = suffix_chars();
    assert(title_suffixes().len() == 7);
    assert(vecs_view(t@).len() == t@.len());
    let mut k: usize = 0;
    while k < t.len()
        invariant
            k <= t.len(),
            t.len() == 7,
            vecs_view(t@) == title_suffixes(),
            cut_suffix_from(s@, 0) == cut_suffix_from(s@, k as int),
        decreases t.len() - k,
    {
        assert(t@[k as int]@ == title_suffixes()[k as int]);
        if ends_with_ignore_case_chars(&s, &t[k]) {
            let n = s.len() - t[k].len();
            let r = vec_of_range(&s, 0, n);
            assert(r@ =~= s@.take(n as int));
            return r;
        }
        k += 1;
    }
    s
}

/// Turn a listing anchor like `1 Trait Escape Free Download (v1.15)` into a
/// clean title plus a version marker. Handles `[v1.5]`, `(v1.5)`,
/// `(Build 123456)`, `(v1.6.1 + Multiplayer)` and `Version 4` styles.
pub fn clean_listing_title(raw: &str) -> (r: (String, Option<String>))
    ensures
        r.0@ == clean_listing_title_spec(raw@).0,
        r.1.deep_view() == clean_listing_title_spec(raw@).1,
{
    let decoded = decode_entities(raw);
    let text = chars_of(decoded.as_str());
    let v1 = version_from_title_chars(&text);
    let a = match remove_group(&text, '[', ']') {
        Some(x) => x,
        None => text,
    };
    let b = match remove_group(&a, '(', ')') {
        Some(x) => x,
        None => a,
    };
    let tb = trimmed_vec(&b);
    let c = cut_suffix(tb);
    let v = match v1 {
        Some(x) => Some(string_of(&x)),
        None => match version_from_title_chars(&c) {
            Some(x) => Some(string_of(&x)),
            None => None,
        },
    };
    let title = collapse_ws_range(&c, 0, c.len());
    assert(c@.subrange(0, c@.len() as int) =~= c@);
    (string_of(&title), v)
}

} // verus!

verus! {

// ---------------------------------------------------------------------------
// Anchors
// ---------------------------------------------------------------------------

pub open spec fn open_a() -> Seq<char> {
    seq!['<', 'a', ' ']
}

pub open spec fn close_a() -> Seq<char> {
    seq!['<', '/', 'a', '>']
}

pub open spec fn href_eq() -> Seq<char> {
    seq!['h', 'r', 'e', 'f', '=', '"']
}

/// The quoted value after the first `href="` of a tag.
pub open spec fn tag_href(tag: Seq<char>) -> Option<Seq<char>> {
    match find(tag, href_eq()) {
        None => None,
        Some(h) => match index_of_from(tag, '"', h + 6) {
            None => None,
            Some(e) => Some(tag.subrange(h + 6, e)),
        },
    }
}

/// Inner HTML of a tag ending in `</a>`: after its first '>'; `None` when
/// no '>' comes before `</a>` (the text range would be reversed).
pub open spec fn tag_text(tag: Seq<char>) -> Option<Seq<char>> {
    match index_of_from(tag, '>', 0) {
        None => Some(Seq::empty()),
        Some(t) => if t + 1 <= tag.len() - 4 {
            Some(tag.subrange(t + 1, tag.len() - 4))
        } else {
            None
        },
    }
}

/// `(href, inner_html)` of every `<a ...>...</a>` with an `href="..."`, in
/// order; `None` when some anchor has no '>' before its `</a>`.
pub open spec fn anchors(s: Seq<char>) -> Option<Seq<(Seq<char>, Seq<char>)>>
    decreases s.len(),
{
    match find(s, open_a()) {
        None => Some(Seq::empty()),
        Some(start) => {
            let ao = s.skip(start);
            match find(ao, close_a()) {
                None => Some(Seq::empty()),
                Some(end) => {
                    let tag = ao.take(end + 4);
                    if 0 <= start <= s.len() && 0 <= end && end + 4 <= ao.len() {
                        match tag_text(tag) {
                            None => None,
                            Some(text) => match anchors(ao.skip(end + 4)) {
                                None => None,
                                Some(rest) => match tag_href(tag) {
                                    Some(h) => Some(seq![(h, text)] + rest),
                                    None => Some(rest),
                                },
                            },
                        }
                    } else {
                        None
                    }
                },
            }
        },
    }
}

pub open spec fn pairs_view(v: Seq<(Vec<char>, Vec<char>)>) -> Seq<(Seq<char>, Seq<char>)> {
    v.map_values(|p: (Vec<char>, Vec<char>)| (p.0@, p.1@))
}

proof fn lemma_find_bound(hay: Seq<char>, needle: Seq<char>)
    ensures
        find(hay, needle) matches Some(i) ==> 0 <= i && i + needle.len() <= hay.len(),
{
    crate::text::lemma_find_from(hay, needle, 0);
}

fn tag_href_of(tag: &Vec<char>) -> (r: Option<Vec<char>>)
    ensures
        r matches Some(x) ==> tag_href(tag@) == Some(x@),
        r is None ==> tag_href(tag@) is None,
{
    let pat = vec!['h', 'r', 'e', 'f', '=', '"'];
    assert(pat@ =~= href_eq());
    match crate::text::find_chars(tag, &pat) {
        None => None,
        Some(h) => {
            proof {
                lemma_find_bound(tag@, href_eq());
                assert(href_eq().len() == 6);
                assert(h + 6 <= tag@.len());
                assert(tag@.len() == tag.len());
            }
            assert(h <= tag.len() - 6);
            match index_of_char(tag, '"', h + 6) {
                None => None,
                Some(e) => Some(vec_of_range(tag, h + 6, e)),
            }
        },
    }
}

/// Every anchor of the page, as `(href, inner_html)`.
pub fn anchor_pairs(html: &Vec<char>) -> (r: Option<Vec<(Vec<char>, Vec<char>)>>)
    ensures
        r matches Some(x) ==> anchors(html@) == Some(pairs_view(x@)),
        r is None ==> anchors(html@) is None,
{
    let oa = vec!['<', 'a', ' '];
    let ca = vec!['<', '/', 'a', '>'];
    assert(oa@ =~= open_a());
    assert(ca@ =~= close_a());
    let mut out: Vec<(Vec<char>, Vec<char>)> = Vec::new();
    let mut pos: usize = 0;
    assert(html@.skip(0) =~= html@);
    loop
        invariant
            pos <= html.len(),
            oa@ == open_a(),
            ca@ == close_a(),
            anchors(html@) matches Some(all) ==> anchors(html@.skip(pos as int)) matches Some(
                rest,
            ) && all == pairs_view(out@) + rest,
            anchors(html@) is None <==> anchors(html@.skip(pos as int)) is None,
        decreases html.len() - pos,
    {
        let ghost s = html@.skip(pos as int);
        let rest = vec_of_range(html, pos, html.len());
        assert(rest@ =~= s);
        let start = match crate::text::find_chars(&rest, &oa) {
            None => {
                assert(pairs_view(out@) + Seq::<(Seq<char>, Seq<char>)>::empty() =~= pairs_view(out@));
                return Some(out);
            },
            Some(x) => x,
        };
        proof {
            lemma_find_bound(s, open_a());
        }
        let ao = vec_of_range(&rest, start, rest.len());
        assert(ao@ =~= s.skip(start as int));
        let end = match crate::text::find_chars(&ao, &ca) {
            None => {
                assert(pairs_view(out@) + Seq::<(Seq<char>, Seq<char>)>::empty() =~= pairs_view(out@));
                return Some(out);
            },
            Some(x) => x,
        };
        proof {
            lemma_find_bound(ao@, close_a());
        }
        let tag = vec_of_range(&ao, 0, end + 4);
        assert(tag@ =~= ao@.take(end + 4));
        let text = match index_of_char(&tag, '>', 0) {
            None => Vec::new(),
            Some(t) => {
                if t + 1 <= tag.len() - 4 {
                    vec_of_range(&tag, t + 1, tag.len() - 4)
                } else {
                    return None;
                }
            },
        };
        assert(tag_text(tag@) == Some(text@));
        let href = tag_href_of(&tag);
        let ghost prev = pairs_view(out@);
        match href {
            Some(h) => {
                out.push((h, text));
                assert(pairs_view(out@) =~= prev + seq![(tag_href(tag@).unwrap(), text@)]);
            },
            None => {},
        }
        let next = pos + start + end + 4;
        assert(ao@.skip(end + 4) =~= html@.skip(next as int));
        pos = next;
        proof {
            assert(anchors(s) == match anchors(html@.skip(pos as int)) {
                None => None,
                Some(r) => match tag_href(tag@) {
                    Some(h) => Some(seq![(h, text@)] + r),
                    None => Some(r),
                },
            });
            if let Some(r) = anchors(html@.skip(pos as int)) {
                if let Some(h) = tag_href(tag@) {
                    assert(prev + (seq![(h, text@)] + r) =~= pairs_view(out@) + r);
                }
            }
        }
    }
}

} // verus!

verus! {

// ---------------------------------------------------------------------------
// Links on listing pages
// ---------------------------------------------------------------------------

/// Trailing `c` characters removed (`trim_end_matches(c)`).
pub open spec fn trim_end_char(s: Seq<char>, c: char) -> Seq<char>
    decreases s.len(),
{
    if s.len() > 0 && s.last() == c {
        trim_end_char(s.drop_last(), c)
    } else {
        s
    }
}

pub open spec fn is_absolute(p: Seq<char>) -> bool {
    starts_with(p, "http://"@) || starts_with(p, "https://"@)
}

/// Join a possibly-relative path onto a base URL.
pub open spec fn join_url_spec(base: Seq<char>, path: Seq<char>) -> Seq<char> {
    let b = trim_end_char(base, '/');
    if is_absolute(path) {
        path
    } else if starts_with(path, seq!['/']) {
        b + seq!['/'] + path.skip(1)
    } else {
        b + seq!['/'] + path
    }
}

fn trim_end_char_vec(v: &Vec<char>, c: char) -> (r: Vec<char>)
    ensures
        r@ == trim_end_char(v@, c),
{
    let mut n = v.len();
    assert(v@.take(n as int) =~= v@);
    while n > 0 && v[n - 1] == c
        invariant
            n <= v.len(),
            trim_end_char(v@, c) == trim_end_char(v@.take(n as int), c),
        decreases n,
    {
        assert(v@.take(n as int).drop_last() =~= v@.take(n - 1));
        n -= 1;
    }
    let r = vec_of_range(v, 0, n);
    assert(r@ =~= v@.take(n as int));
    r
}

fn is_absolute_chars(p: &Vec<char>) -> (r: bool)
    ensures
        r == is_absolute(p@),
{
    let a = chars_of("http://");
    let b = chars_of("https://");
    starts_with_chars(p, &a) || starts_with_chars(p, &b)
}

fn join_url_chars(base: &Vec<char>, path: &Vec<char>) -> (r: Vec<char>)
    ensures
        r@ == join_url_spec(base@, path@),
{
    if is_absolute_chars(path) {
        return vec_of_range(path, 0, path.len());
    }
    let mut b = trim_end_char_vec(base, '/');
    let slash = vec!['/'];
    assert(slash@ =~= seq!['/']);
    let ghost bv = b@;
    b.push('/');
    if starts_with_chars(path, &slash) {
        let mut rest = vec_of_range(path, 1, path.len());
        assert(rest@ =~= path@.skip(1));
        b.append(&mut rest);
        assert(b@ =~= bv + seq!['/'] + path@.skip(1));
    } else {
        let mut rest = vec_of_range(path, 0, path.len());
        b.append(&mut rest);
        assert(b@ =~= bv + seq!['/'] + path@);
    }
    b
}

/// Join a possibly-relative path onto a base URL.
pub fn join_url(base: &str, path: &str) -> (r: String)
    ensures
        r@ == join_url_spec(base@, path@),
{
    let b = chars_of(base);
    let p = chars_of(path);
    let r = join_url_chars(&b, &p);
    string_of(&r)
}

/// URL fragments that mark navigation, taxonomy, media or social links.
pub open spec fn excluded_fragments() -> Seq<Seq<char>> {
    seq![
        "/category/"@, "/tag/"@, "/page/"@, "/wp-"@, "/author/"@, "/about"@, "/contact"@,
        "/privacy"@, "/dmca"@, "/faq"@, "/terms"@, "/sitemap"@, "/collections"@, "/games-list"@,
        "/top-games"@, "/updated-games"@, "/all-games/"@, "/recently-updated"@,
        "/most-downloaded"@, "/trending"@, "/latest-news"@, "/request"@, "/my-library"@,
        "/launcher"@, "/steps-for-games"@, "/categories"@, "facebook.com"@, "twitter.com"@,
        "t.me"@, "discord"@, "telegram"@, "#"@, "mailto:"@, ".css"@, ".js"@, ".png"@, ".jpg"@,
        "?p="@, "?random-post"@,
    ]
}

/// A URL that looks like a game post: its lower-case form holds none of the
/// excluded fragments.
pub open spec fn plausible_game_url(url: Seq<char>) -> bool {
    forall|k: int| 0 <= k < excluded_fragments().len() ==> !contains(lower_of(url), #[trigger] excluded_fragments()[k])
}

fn excluded_chars() -> (t: Vec<Vec<char>>)
    ensures
        vecs_view(t@) == excluded_fragments(),
{
    let t = vec![
        chars_of("/category/"), chars_of("/tag/"), chars_of("/page/"), chars_of("/wp-"),
        chars_of("/author/"), chars_of("/about"), chars_of("/contact"), chars_of("/privacy"),
        chars_of("/dmca"), chars_of("/faq"), chars_of("/terms"), chars_of("/sitemap"),
        chars_of("/collections"), chars_of("/games-list"), chars_of("/top-games"),
        chars_of("/updated-games"), chars_of("/all-games/"), chars_of("/recently-updated"),
        chars_of("/most-downloaded"), chars_of("/trending"), chars_of("/latest-news"),
        chars_of("/request"), chars_of("/my-library"), chars_of("/launcher"),
        chars_of("/steps-for-games"), chars_of("/categories"), chars_of("facebook.com"),
        chars_of("twitter.com"), chars_of("t.me"), chars_of("discord"), chars_of("telegram"),
        chars_of("#"), chars_of("mailto:"), chars_of(".css"), chars_of(".js"), chars_of(".png"),
        chars_of(".jpg"), chars_of("?p="), chars_of("?random-post"),
    ];
    assert(vecs_view(t@) =~= excluded_fragments());
    t
}

fn is_plausible_game_url(url: &Vec<char>) -> (r: bool)
    ensures
        r == plausible_game_url(url@),
{
    let lower = lower_vec(url);
    let ex = excluded_chars();
    assert(vecs_view(ex@).len() == ex@.len());
    let mut k: usize = 0;
    while k < ex.len()
        invariant
            k <= ex.len(),
            vecs_view(ex@) == excluded_fragments(),
            lower@ == lower_of(url@),
            forall|j: int| 0 <= j < k ==> !contains(lower@, #[trigger] excluded_fragments()[j]),
        decreases ex.len() - k,
    {
        assert(ex@[k as int]@ == excluded_fragments()[k as int]);
        if contains_chars(&lower, &ex[k]) {
            return false;
        }
        k += 1;
    }
    true
}

/// Whether the in-tag flag is set after `s` ('<' opens, '>' closes).
pub open spec fn in_tag_after(s: Seq<char>) -> bool
    decreases s.len(),
{
    if s.len() == 0 {
        false
    } else if s.last() == '<' {
        true
    } else if s.last() == '>' {
        false
    } else {
        in_tag_after(s.drop_last())
    }
}

/// Characters outside `<...>` tags.
pub open spec fn untagged(s: Seq<char>) -> Seq<char>
    decreases s.len(),
{
    if s.len() == 0 {
        Seq::empty()
    } else {
        let p = untagged(s.drop_last());
        let c = s.last();
        if c == '<' || c == '>' || in_tag_after(s.drop_last()) {
            p
        } else {
            p.push(c)
        }
    }
}

/// Anchor inner HTML as text: tags dropped, whitespace collapsed.
pub open spec fn anchor_text_spec(raw: Seq<char>) -> Seq<char> {
    collapse_ws(untagged(raw))
}

fn untagged_chars(v: &Vec<char>) -> (r: Vec<char>)
    ensures
        r@ == untagged(v@),
{
    let mut out: Vec<char> = Vec::new();
    let mut in_tag = false;
    let mut i: usize = 0;
    while i < v.len()
        invariant
            i <= v.len(),
            in_tag == in_tag_after(v@.take(i as int)),
            out@ == untagged(v@.take(i as int)),
        decreases v.len() - i,
    {
        let c = v[i];
        assert(v@.take(i + 1).drop_last() =~= v@.take(i as int));
        if c == '<' {
            in_tag = true;
        } else if c == '>' {
            in_tag = false;
        } else if !in_tag {
            out.push(c);
        }
        i += 1;
    }
    assert(v@.take(v.len() as int) =~= v@);
    out
}

fn anchor_text_chars(raw: &Vec<char>) -> (r: Vec<char>)
    ensures
        r@ == anchor_text_spec(raw@),
{
    let u = untagged_chars(raw);
    let r = collapse_ws_range(&u, 0, u.len());
    assert(u@.subrange(0, u@.len() as int) =~= u@);
    r
}

/// Anchor inner HTML as text: tags dropped, whitespace collapsed.
pub fn anchor_text(raw: &str) -> (r: String)
    ensures
        r@ == anchor_text_spec(raw@),
{
    let v = chars_of(raw);
    let r = anchor_text_chars(&v);
    string_of(&r)
}

} // verus!

verus! {

/// A game post link from a listing page.
pub struct GameLink {
    pub title: String,
    pub url: String,
    pub version: Option<String>,
}

pub struct GameLinkV {
    pub title: Seq<char>,
    pub url: Seq<char>,
    pub version: Option<Seq<char>>,
}

impl View for GameLink {
    type V = GameLinkV;

    open spec fn view(&self) -> GameLinkV {
        GameLinkV { title: self.title@, url: self.url@, version: self.version.deep_view() }
    }
}

pub open spec fn game_links_view(ls: Seq<GameLink>) -> Seq<GameLinkV> {
    ls.map_values(|l: GameLink| l@)
}

/// The link an anchor yields, if any: an absolute (or site-relative, then
/// joined) plausible game URL whose text and cleaned title are at least two
/// bytes long.
pub open spec fn candidate_link(href: Seq<char>, text: Seq<char>, base: Seq<char>) -> Option<GameLinkV> {
    let h = trim(href);
    let abs = if is_absolute(h) {
        Some(h)
    } else if starts_with(h, seq!['/']) {
        Some(join_url_spec(base, h))
    } else {
        None
    };
    match abs {
        None => None,
        Some(u) => if !plausible_game_url(u) {
            None
        } else {
            let raw = anchor_text_spec(text);
            if byte_len(raw) < 2 {
                None
            } else {
                let (t, v) = clean_listing_title_spec(raw);
                if byte_len(t) < 2 {
                    None
                } else {
                    Some(GameLinkV { title: t, url: u, version: v })
                }
            }
        },
    }
}

pub open spec fn has_link_url(ls: Seq<GameLinkV>, u: Seq<char>) -> bool {
    exists|i: int| 0 <= i < ls.len() && ls[i].url == u
}

/// Links of the anchors in order, the first per URL kept.
pub open spec fn game_links_from(anchs: Seq<(Seq<char>, Seq<char>)>, base: Seq<char>) -> Seq<GameLinkV>
    decreases anchs.len(),
{
    if anchs.len() == 0 {
        Seq::empty()
    } else {
        let acc = game_links_from(anchs.drop_last(), base);
        match candidate_link(anchs.last().0, anchs.last().1, base) {
            None => acc,
            Some(l) => if has_link_url(acc, l.url) {
                acc
            } else {
                acc.push(l)
            },
        }
    }
}

/// Whether every anchor of the page closes after a '>' (the pages the
/// link extractors accept).
pub fn anchors_well_formed(html: &str) -> (r: bool)
    ensures
        r == (anchors(html@) is Some),
{
    let v = chars_of(html);
    anchor_pairs(&v).is_some()
}

pub fn byte_len_lt2(v: &Vec<char>) -> (r: bool)
    ensures
        r == (byte_len(v@) < 2),
{
    proof {
        crate::slug::lemma_len_le_byte_len(v@);
        if v@.len() == 1 {
            assert(v@ =~= seq![v@[0]]);
            crate::slug::lemma_byte_len_single(v@[0]);
        }
    }
    v.len() == 0 || (v.len() == 1 && (v[0] as u32) < 0x80)
}

fn candidate_link_of(href: &Vec<char>, text: &Vec<char>, base: &Vec<char>) -> (r: Option<GameLink>)
    ensures
        r matches Some(l) ==> candidate_link(href@, text@, base@) == Some(l@),
        r is None ==> candidate_link(href@, text@, base@) is None,
{
    let h = trimmed_vec(href);
    let slash = vec!['/'];
    assert(slash@ =~= seq!['/']);
    let u = if is_absolute_chars(&h) {
        h
    } else if starts_with_chars(&h, &slash) {
        join_url_chars(base, &h)
    } else {
        return None;
    };
    if !is_plausible_game_url(&u) {
        return None;
    }
    let raw = anchor_text_chars(text);
    if byte_len_lt2(&raw) {
        return None;
    }
    let rs = string_of(&raw);
    let (t, v) = clean_listing_title(rs.as_str());
    let tv = chars_of(t.as_str());
    if byte_len_lt2(&tv) {
        return None;
    }
    Some(GameLink { title: t, url: string_of(&u), version: v })
}

fn has_link_url_exec(ls: &Vec<GameLink>, u: &String) -> (r: bool)
    ensures
        r == has_link_url(game_links_view(ls@), u@),
{
    let mut i: usize = 0;
    while i < ls.len()
        invariant
            i <= ls.len(),
            forall|k: int| 0 <= k < i ==> game_links_view(ls@)[k].url != u@,
        decreases ls.len() - i,
    {
        if ls[i].url == *u {
            assert(game_links_view(ls@)[i as int].url == u@);
            return true;
        }
        i += 1;
    }
    false
}

/// Pull plausible game-page links out of a listing page's HTML.
pub fn extract_game_links(html: &str, base_url: &str) -> (r: Vec<GameLink>)
    requires
        anchors(html@) is Some,
    ensures
        game_links_view(r@) == game_links_from(anchors(html@).unwrap(), base_url@),
{
    let v = chars_of(html);
    let base = chars_of(base_url);
    let pairs = anchor_pairs(&v).unwrap();
    let ghost pv = pairs_view(pairs@);
    let mut out: Vec<GameLink> = Vec::new();
    let mut i: usize = 0;
    while i < pairs.len()
        invariant
            i <= pairs.len(),
            pv == pairs_view(pairs@),
            base@ == base_url@,
            game_links_view(out@) == game_links_from(pv.take(i as int), base_url@),
        decreases pairs.len() - i,
    {
        assert(pv.take(i + 1).drop_last() =~= pv.take(i as int));
        assert(pv.take(i + 1).last() == (pairs@[i as int].0@, pairs@[i as int].1@));
        match candidate_link_of(&pairs[i].0, &pairs[i].1, &base) {
            None => {},
            Some(l) => {
                if !has_link_url_exec(&out, &l.url) {
                    let ghost before = game_links_view(out@);
                    out.push(l);
                    assert(game_links_view(out@) =~= before.push(l@));
                }
            },
        }
        i += 1;
    }
    assert(pv.take(pairs.len() as int) =~= pv);
    out
}

/// The path segment after `prefix` (leading '/'s skipped), unless empty or
/// naming a page or a query.
pub open spec fn href_segment_spec(href: Seq<char>, prefix: Seq<char>) -> Option<Seq<char>> {
    match find(href, prefix) {
        None => None,
        Some(i) => {
            let after = trim_start_char(href.skip(i + prefix.len()), '/');
            let seg = match index_of_from(after, '/', 0) {
                Some(j) => after.take(j),
                None => after,
            };
            if seg.len() == 0 || contains(seg, "page"@) || seg.contains('?') {
                None
            } else {
                Some(seg)
            }
        },
    }
}

fn href_segment(href: &Vec<char>, prefix: &Vec<char>) -> (r: Option<Vec<char>>)
    ensures
        r matches Some(x) ==> href_segment_spec(href@, prefix@) == Some(x@),
        r is None ==> href_segment_spec(href@, prefix@) is None,
{
    let i = match find_chars(href, prefix) {
        None => return None,
        Some(i) => i,
    };
    proof {
        lemma_find_bound(href@, prefix@);
    }
    assert(i <= href.len() - prefix.len());
    let tail = vec_of_range(href, i + prefix.len(), href.len());
    assert(tail@ =~= href@.skip(i + prefix@.len()));
    let after = trim_start_char_vec(&tail, '/');
    let seg = match index_of_char(&after, '/', 0) {
        Some(j) => {
            let s = vec_of_range(&after, 0, j);
            assert(s@ =~= after@.take(j as int));
            s
        },
        None => after,
    };
    let page = chars_of("page");
    let mut has_q = false;
    let mut k: usize = 0;
    while k < seg.len()
        invariant
            k <= seg.len(),
            has_q == exists|x: int| 0 <= x < k && seg@[x] == '?',
        decreases seg.len() - k,
    {
        if seg[k] == '?' {
            has_q = true;
        }
        k += 1;
    }
    if seg.len() == 0 || contains_chars(&seg, &page) || has_q {
        None
    } else {
        Some(seg)
    }
}

/// Letter segments linked under `/all-games/`, distinct, in order.
pub open spec fn letter_paths_from(anchs: Seq<(Seq<char>, Seq<char>)>) -> Seq<Seq<char>>
    decreases anchs.len(),
{
    if anchs.len() == 0 {
        Seq::empty()
    } else {
        let acc = letter_paths_from(anchs.drop_last());
        match href_segment_spec(anchs.last().0, "/all-games/"@) {
            None => acc,
            Some(s) => if acc.contains(s) {
                acc
            } else {
                acc.push(s)
            },
        }
    }
}

fn contains_vec(v: &Vec<Vec<char>>, x: &Vec<char>) -> (r: bool)
    ensures
        r == vecs_view(v@).contains(x@),
{
    let mut i: usize = 0;
    while i < v.len()
        invariant
            i <= v.len(),
            forall|k: int| 0 <= k < i ==> vecs_view(v@)[k] != x@,
        decreases v.len() - i,
    {
        if crate::text::seq_equal(&v[i], x) {
            assert(vecs_view(v@)[i as int] == x@);
            return true;
        }
        i += 1;
    }
    false
}

/// Discover letter paths (`/all-games/<letter>/`) from the hub page.
pub fn extract_letter_paths(hub_html: &str) -> (r: Vec<String>)
    requires
        anchors(hub_html@) is Some,
    ensures
        r.deep_view() == letter_paths_from(anchors(hub_html@).unwrap()),
{
    let v = chars_of(hub_html);
    let pairs = anchor_pairs(&v).unwrap();
    let ghost pv = pairs_view(pairs@);
    let prefix = chars_of("/all-games/");
    let mut out: Vec<Vec<char>> = Vec::new();
    let mut i: usize = 0;
    while i < pairs.len()
        invariant
            i <= pairs.len(),
            pv == pairs_view(pairs@),
            prefix@ == "/all-games/"@,
            vecs_view(out@) == letter_paths_from(pv.take(i as int)),
        decreases pairs.len() - i,
    {
        assert(pv.take(i + 1).drop_last() =~= pv.take(i as int));
        assert(pv.take(i + 1).last().0 == pairs@[i as int].0@);
        match href_segment(&pairs[i].0, &prefix) {
            None => {},
            Some(s) => {
                if !contains_vec(&out, &s) {
                    let ghost before = vecs_view(out@);
                    out.push(s);
                    assert(vecs_view(out@) =~= before.push(out@.last()@));
                }
            },
        }
        i += 1;
    }
    assert(pv.take(pairs.len() as int) =~= pv);
    strings_of(&out)
}

pub fn strings_of(v: &Vec<Vec<char>>) -> (r: Vec<String>)
    ensures
        r.deep_view() == vecs_view(v@),
{
    let mut r: Vec<String> = Vec::new();
    let mut i: usize = 0;
    while i < v.len()
        invariant
            i <= v.len(),
            r.len() == i,
            forall|k: int| 0 <= k < i ==> #[trigger] r@[k]@ == v@[k]@,
        decreases v.len() - i,
    {
        r.push(string_of(&v[i]));
        i += 1;
    }
    assert(r.deep_view() =~= vecs_view(v@));
    r
}

} // verus!

verus! {

pub open spec fn all_digits(s: Seq<char>) -> bool {
    forall|i: int| 0 <= i < s.len() ==> is_digit(#[trigger] s[i])
}

/// `<current>page/<n>/` when the href links a numbered page below `current`.
pub open spec fn page_link(href: Seq<char>, current: Seq<char>) -> Option<Seq<char>> {
    let needle = current + "page/"@;
    if contains(href, needle) {
        match href_segment_spec(href, needle) {
            Some(p) => if all_digits(p) {
                Some(needle + p + seq!['/'])
            } else {
                None
            },
            None => None,
        }
    } else {
        None
    }
}

pub open spec fn page_candidates(anchs: Seq<(Seq<char>, Seq<char>)>, current: Seq<char>) -> Seq<Seq<char>>
    decreases anchs.len(),
{
    if anchs.len() == 0 {
        Seq::empty()
    } else {
        let acc = page_candidates(anchs.drop_last(), current);
        match page_link(anchs.last().0, current) {
            Some(p) => acc.push(p),
            None => acc,
        }
    }
}

/// Find deeper pagination paths like `<current>/page/2/` on a listing page:
/// each distinct one once, in sorted order.
pub fn pagination_paths(html: &str, current_path: &str) -> (r: Vec<String>)
    requires
        anchors(html@) is Some,
    ensures
        crate::text::strictly_sorted(r.deep_view()),
        r.deep_view().to_set() == page_candidates(anchors(html@).unwrap(), current_path@).to_set(),
{
    let v = chars_of(html);
    let pairs = anchor_pairs(&v).unwrap();
    let ghost pv = pairs_view(pairs@);
    let mut needle = chars_of(current_path);
    let mut pg = chars_of("page/");
    let ghost nv0 = needle@;
    needle.append(&mut pg);
    assert(needle@ =~= current_path@ + "page/"@);
    let mut out: Vec<Vec<char>> = Vec::new();
    let mut i: usize = 0;
    assert(vecs_view(out@).to_set() =~= Set::<Seq<char>>::empty());
    assert(page_candidates(pv.take(0), current_path@) =~= Seq::<Seq<char>>::empty());
    while i < pairs.len()
        invariant
            i <= pairs.len(),
            pv == pairs_view(pairs@),
            needle@ == current_path@ + "page/"@,
            crate::text::strictly_sorted(vecs_view(out@)),
            vecs_view(out@).to_set() == page_candidates(pv.take(i as int), current_path@).to_set(),
        decreases pairs.len() - i,
    {
        assert(pv.take(i + 1).drop_last() =~= pv.take(i as int));
        assert(pv.take(i + 1).last().0 == pairs@[i as int].0@);
        let href = &pairs[i].0;
        let ghost acc = page_candidates(pv.take(i as int), current_path@);
        if contains_chars(href, &needle) {
            match href_segment(href, &needle) {
                Some(p) => {
                    let mut digits = true;
                    let mut k: usize = 0;
                    while k < p.len()
                        invariant
                            k <= p.len(),
                            digits == forall|x: int| 0 <= x < k ==> is_digit(#[trigger] p@[x]),
                        decreases p.len() - k,
                    {
                        if !is_ascii_digit(p[k]) {
                            digits = false;
                        }
                        k += 1;
                    }
                    if digits {
                        let mut link = vec_of_range(&needle, 0, needle.len());
                        let mut pc = vec_of_range(&p, 0, p.len());
                        let ghost lv = link@;
                        link.append(&mut pc);
                        link.push('/');
                        assert(link@ =~= needle@ + p@ + seq!['/']);
                        let ghost x = link@;
                        crate::text::insert_sorted(&mut out, link);
                        proof {
                            acc.lemma_push_to_set_commute(x);
                        }
                    }
                },
                None => {},
            }
        }
        i += 1;
    }
    assert(pv.take(pairs.len() as int) =~= pv);
    let r = strings_of(&out);
    r
}

/// Listing links as source entries of one site.
pub open spec fn to_source_games_spec(links: Seq<GameLinkV>, label: SourceLabel) -> Seq<SourceGameV> {
    links.map_values(|l: GameLinkV| SourceGameV {
        title: l.title,
        download_url: l.url,
        version: l.version,
        notes: None,
        source_label: label,
    })
}

pub fn to_source_games(links: Vec<GameLink>, label: SourceLabel) -> (r: Vec<SourceGame>)
    ensures
        games_view(r@) == to_source_games_spec(game_links_view(links@), label),
{
    let mut r: Vec<SourceGame> = Vec::new();
    let mut i: usize = 0;
    while i < links.len()
        invariant
            i <= links.len(),
            r.len() == i,
            forall|k: int| 0 <= k < i ==> #[trigger] r@[k]@ == to_source_games_spec(game_links_view(links@), label)[k],
        decreases links.len() - i,
    {
        let l = &links[i];
        r.push(SourceGame {
            title: l.title.clone(),
            download_url: l.url.clone(),
            version: copy_opt_string(&l.version),
            notes: None,
            source_label: label,
        });
        i += 1;
    }
    assert(games_view(r@) =~= to_source_games_spec(game_links_view(links@), label));
    r
}


proof fn lemma_links_plausible(anchs: Seq<(Seq<char>, Seq<char>)>, base: Seq<char>)
    ensures
        forall|i: int|
            0 <= i < game_links_from(anchs, base).len() ==> plausible_game_url(
                (#[trigger] game_links_from(anchs, base)[i]).url,
            ),
    decreases anchs.len(),
{
    if anchs.len() > 0 {
        lemma_links_plausible(anchs.drop_last(), base);
        let acc = game_links_from(anchs.drop_last(), base);
        match candidate_link(anchs.last().0, anchs.last().1, base) {
            None => {},
            Some(l) => if !has_link_url(acc, l.url) {
                let r = acc.push(l);
                assert forall|i: int| 0 <= i < r.len() implies plausible_game_url((#[trigger] r[i]).url) by {
                    if i < acc.len() {
                        assert(r[i] == acc[i]);
                    }
                }
            },
        }
    }
}

/// A lower-case URL that holds no navigation, taxonomy, media or social
/// fragment.
pub open spec fn free_of_navigation(u: Seq<char>) -> bool {
    &&& !contains(u, "/category/"@)
    &&& !contains(u, "/tag/"@)
    &&& !contains(u, "/page/"@)
    &&& !contains(u, "/wp-"@)
    &&& !contains(u, "/author/"@)
    &&& !contains(u, "/about"@)
    &&& !contains(u, "/contact"@)
    &&& !contains(u, "/privacy"@)
    &&& !contains(u, "/dmca"@)
    &&& !contains(u, "/faq"@)
    &&& !contains(u, "/terms"@)
    &&& !contains(u, "/sitemap"@)
    &&& !contains(u, "/collections"@)
    &&& !contains(u, "/games-list"@)
    &&& !contains(u, "/top-games"@)
    &&& !contains(u, "/updated-games"@)
    &&& !contains(u, "/all-games/"@)
    &&& !contains(u, "/recently-updated"@)
    &&& !contains(u, "/most-downloaded"@)
    &&& !contains(u, "/trending"@)
    &&& !contains(u, "/latest-news"@)
    &&& !contains(u, "/request"@)
    &&& !contains(u, "/my-library"@)
    &&& !contains(u, "/launcher"@)
    &&& !contains(u, "/steps-for-games"@)
    &&& !contains(u, "/categories"@)
    &&& !contains(u, "facebook.com"@)
    &&& !contains(u, "twitter.com"@)
    &&& !contains(u, "t.me"@)
    &&& !contains(u, "discord"@)
    &&& !contains(u, "telegram"@)
    &&& !contains(u, "#"@)
    &&& !contains(u, "mailto:"@)
    &&& !contains(u, ".css"@)
    &&& !contains(u, ".js"@)
    &&& !contains(u, ".png"@)
    &&& !contains(u, ".jpg"@)
    &&& !contains(u, "?p="@)
    &&& !contains(u, "?random-post"@)
}

/// Navigation is never taken for a game: no link extracted from a page
/// has a URL whose lower-case form holds a navigation, taxonomy, media or
/// social fragment ("/category/", "/tag/", "/page/", "/wp-", ...).
pub proof fn lemma_links_skip_navigation(anchs: Seq<(Seq<char>, Seq<char>)>, base: Seq<char>)
    ensures
        forall|i: int|
            0 <= i < game_links_from(anchs, base).len() ==> free_of_navigation(
                lower_of((#[trigger] game_links_from(anchs, base)[i]).url),
            ),
{
    lemma_links_plausible(anchs, base);
    let ls = game_links_from(anchs, base);
    assert forall|i: int| 0 <= i < ls.len() implies free_of_navigation(lower_of((#[trigger] ls[i]).url)) by {
        assert(plausible_game_url(ls[i].url));
        assert(excluded_fragments()[0] == "/category/"@);
        assert(excluded_fragments()[1] == "/tag/"@);
        assert(excluded_fragments()[2] == "/page/"@);
        assert(excluded_fragments()[3] == "/wp-"@);
        assert(excluded_fragments()[4] == "/author/"@);
        assert(excluded_fragments()[5] == "/about"@);
        assert(excluded_fragments()[6] == "/contact"@);
        assert(excluded_fragments()[7] == "/privacy"@);
        assert(excluded_fragments()[8] == "/dmca"@);
        assert(excluded_fragments()[9] == "/faq"@);
        assert(excluded_fragments()[10] == "/terms"@);
        assert(excluded_fragments()[11] == "/sitemap"@);
        assert(excluded_fragments()[12] == "/collections"@);
        assert(excluded_fragments()[13] == "/games-list"@);
        assert(excluded_fragments()[14] == "/top-games"@);
        assert(excluded_fragments()[15] == "/updated-games"@);
        assert(excluded_fragments()[16] == "/all-games/"@);
        assert(excluded_fragments()[17] == "/recently-updated"@);
        assert(excluded_fragments()[18] == "/most-downloaded"@);
        assert(excluded_fragments()[19] == "/trending"@);
        assert(excluded_fragments()[20] == "/latest-news"@);
        assert(excluded_fragments()[21] == "/request"@);
        assert(excluded_fragments()[22] == "/my-library"@);
        assert(excluded_fragments()[23] == "/launcher"@);
        assert(excluded_fragments()[24] == "/steps-for-games"@);
        assert(excluded_fragments()[25] == "/categories"@);
        assert(excluded_fragments()[26] == "facebook.com"@);
        assert(excluded_fragments()[27] == "twitter.com"@);
        assert(excluded_fragments()[28] == "t.me"@);
        assert(excluded_fragments()[29] == "discord"@);
        assert(excluded_fragments()[30] == "telegram"@);
        assert(excluded_fragments()[31] == "#"@);
        assert(excluded_fragments()[32] == "mailto:"@);
        assert(excluded_fragments()[33] == ".css"@);
        assert(excluded_fragments()[34] == ".js"@);
        assert(excluded_fragments()[35] == ".png"@);
        assert(excluded_fragments()[36] == ".jpg"@);
        assert(excluded_fragments()[37] == "?p="@);
        assert(excluded_fragments()[38] == "?random-post"@);
    }
}

} // verus!
