//! Character-level text primitives shared by every module: whitespace
//! handling, substring search, case folding and conversions between
//! `&str`/`String` and character vectors.
use vstd::prelude::*;

verus! {

broadcast use vstd::string::group_string_axioms;

// ---------------------------------------------------------------------------
// Character classes
// ---------------------------------------------------------------------------

/// Unicode `White_Space`, the set `char::is_whitespace` tests.
pub open spec fn is_ws(c: char) -> bool {
    ||| ('\u{9}' <= c && c <= '\u{d}')
    ||| c == ' '
    ||| c == '\u{85}'
    ||| c == '\u{a0}'
    ||| c == '\u{1680}'
    ||| ('\u{2000}' <= c && c <= '\u{200a}')
    ||| c == '\u{2028}'
    ||| c == '\u{2029}'
    ||| c == '\u{202f}'
    ||| c == '\u{205f}'
    ||| c == '\u{3000}'
}

pub fn is_whitespace(c: char) -> (r: bool)
    ensures
        r == is_ws(c),
{
    ('\u{9}' <= c && c <= '\u{d}') || c == ' ' || c == '\u{85}' || c == '\u{a0}' || c
        == '\u{1680}' || ('\u{2000}' <= c && c <= '\u{200a}') || c == '\u{2028}' || c
        == '\u{2029}' || c == '\u{202f}' || c == '\u{205f}' || c == '\u{3000}'
}

pub open spec fn is_digit(c: char) -> bool {
    '0' <= c && c <= '9'
}

pub fn is_ascii_digit(c: char) -> (r: bool)
    ensures
        r == is_digit(c),
{
    '0' <= c && c <= '9'
}

pub open spec fn is_ascii_alnum(c: char) -> bool {
    is_digit(c) || ('a' <= c && c <= 'z') || ('A' <= c && c <= 'Z')
}

pub fn is_ascii_alphanumeric(c: char) -> (r: bool)
    ensures
        r == is_ascii_alnum(c),
{
    ('0' <= c && c <= '9') || ('a' <= c && c <= 'z') || ('A' <= c && c <= 'Z')
}

/// ASCII lower-casing of one character (non-ASCII letters unchanged).
pub open spec fn ascii_lower(c: char) -> char {
    if 'A' <= c && c <= 'Z' {
        ((c as u32) + 32) as char
    } else {
        c
    }
}

pub fn to_ascii_lower(c: char) -> (r: char)
    ensures
        r == ascii_lower(c),
{
    if 'A' <= c && c <= 'Z' {
        let v: u32 = (c as u32) + 32;
        assert(0x61 <= v <= 0x7a);
        char_from_ascii(v)
    } else {
        c
    }
}

/// The character with code point `v` (an ASCII value).
fn char_from_ascii(v: u32) -> (r: char)
    requires
        v < 128,
    ensures
        r == v as char,
{
    let b: u8 = v as u8;
    b as char
}

/// `str::eq_ignore_ascii_case`.
pub open spec fn eq_ignore_case(a: Seq<char>, b: Seq<char>) -> bool {
    a.len() == b.len() && forall|i: int| 0 <= i < a.len() ==> ascii_lower(#[trigger] a[i]) == ascii_lower(b[i])
}

pub fn eq_ignore_ascii_case(a: &str, b: &str) -> (r: bool)
    ensures
        r == eq_ignore_case(a@, b@),
{
    let x = chars_of(a);
    let y = chars_of(b);
    if x.len() != y.len() {
        return false;
    }
    let mut i: usize = 0;
    while i < x.len()
        invariant
            x@ == a@,
            y@ == b@,
            x.len() == y.len(),
            i <= x.len(),
            forall|k: int| 0 <= k < i ==> ascii_lower(#[trigger] x@[k]) == ascii_lower(y@[k]),
        decreases x.len() - i,
    {
        if to_ascii_lower(x[i]) != to_ascii_lower(y[i]) {
            return false;
        }
        i += 1;
    }
    true
}

// ---------------------------------------------------------------------------
// Outside facts about std's Unicode case tables
// ---------------------------------------------------------------------------

/// What `str::to_lowercase` gives for a string (Unicode case tables).
pub uninterp spec fn lower_of(s: Seq<char>) -> Seq<char>;

/// What `char::is_alphanumeric` answers (Unicode Alphabetic or Numeric).
pub uninterp spec fn alnum_of(c: char) -> bool;

/// What `char::to_uppercase` yields for one character (Unicode case tables).
pub uninterp spec fn upper_of(c: char) -> Seq<char>;

/// `str::to_lowercase`: the Unicode lower-case form, named by `lower_of`.
#[verifier::external_body]
pub(crate) fn to_lowercase(s: &str) -> (r: String)
    ensures
        r@ == lower_of(s@),
{
    s.to_lowercase()
}

/// `char::is_alphanumeric`: named by `alnum_of`; on ASCII characters the
/// documentation fixes the answer to the ASCII letters and digits.
#[verifier::external_body]
pub(crate) fn is_alphanumeric(c: char) -> (r: bool)
    ensures
        r == alnum_of(c),
        (c as u32) < 128 ==> (r == is_ascii_alnum(c)),
{
    c.is_alphanumeric()
}

/// `char::to_uppercase`, collected into a string; named by `upper_of`.
#[verifier::external_body]
pub(crate) fn char_to_uppercase(c: char) -> (r: String)
    ensures
        r@ == upper_of(c),
{
    c.to_uppercase().collect::<String>()
}

/// Appends one character to an owned string (std's `String::push`).
#[verifier::external_body]
pub(crate) fn push_char(s: &mut String, c: char)
    ensures
        final(s)@ == old(s)@.push(c),
{
    s.push(c);
}

// ---------------------------------------------------------------------------
// Conversions
// ---------------------------------------------------------------------------

/// The characters of a string slice, in order.
pub fn chars_of(s: &str) -> (out: Vec<char>)
    ensures
        out@ == s@,
{
    let mut out: Vec<char> = Vec::new();
    for c in it: s.chars()
        invariant
            out@ == it.seq().take(it.index() as int),
    {
        out.push(c);
    }
    proof {
        assert(out@ =~= s@);
    }
    out
}

/// The string whose characters are those of `v`.
pub fn string_of(v: &Vec<char>) -> (out: String)
    ensures
        out@ == v@,
{
    let mut out = String::new();
    let mut i: usize = 0;
    while i < v.len()
        invariant
            i <= v.len(),
            out@ == v@.take(i as int),
        decreases v.len() - i,
    {
        push_char(&mut out, v[i]);
        assert(v@.take(i + 1) =~= v@.take(i as int).push(v@[i as int]));
        i += 1;
    }
    assert(v@.take(v.len() as int) =~= v@);
    out
}

/// The string of `v[from..to]`.
pub fn string_of_range(v: &Vec<char>, from: usize, to: usize) -> (out: String)
    requires
        from <= to <= v.len(),
    ensures
        out@ == v@.subrange(from as int, to as int),
{
    let mut out = String::new();
    let mut i: usize = from;
    while i < to
        invariant
            from <= i <= to <= v.len(),
            out@ == v@.subrange(from as int, i as int),
        decreases to - i,
    {
        push_char(&mut out, v[i]);
        assert(v@.subrange(from as int, i + 1) =~= v@.subrange(from as int, i as int).push(
            v@[i as int],
        ));
        i += 1;
    }
    out
}

pub fn concat(a: &str, b: &str) -> (out: String)
    ensures
        out@ == a@ + b@,
{
    let mut out = String::from_str(a);
    out.append(b);
    out
}

pub fn clone_string(s: &String) -> (out: String)
    ensures
        out@ == s@,
{
    s.clone()
}

pub fn str_eq(a: &str, b: &str) -> (r: bool)
    ensures
        r == (a@ == b@),
{
    let x = String::from_str(a);
    let y = String::from_str(b);
    x == y
}

// ---------------------------------------------------------------------------
// Whitespace
// ---------------------------------------------------------------------------

/// Number of leading whitespace characters.
pub open spec fn lead_ws(s: Seq<char>) -> nat
    decreases s.len(),
{
    if s.len() == 0 || !is_ws(s[0]) {
        0
    } else {
        1 + lead_ws(s.drop_first())
    }
}

/// Number of trailing whitespace characters.
pub open spec fn trail_ws(s: Seq<char>) -> nat
    decreases s.len(),
{
    if s.len() == 0 || !is_ws(s.last()) {
        0
    } else {
        1 + trail_ws(s.drop_last())
    }
}

pub open spec fn trim_start(s: Seq<char>) -> Seq<char> {
    s.skip(lead_ws(s) as int)
}

pub open spec fn trim_end(s: Seq<char>) -> Seq<char> {
    s.take(s.len() - trail_ws(s))
}

/// `str::trim`: whitespace removed at both ends.
pub open spec fn trim(s: Seq<char>) -> Seq<char> {
    trim_end(trim_start(s))
}

pub proof fn lemma_lead_ws(s: Seq<char>)
    ensures
        lead_ws(s) <= s.len(),
        forall|k: int| 0 <= k < lead_ws(s) ==> is_ws(#[trigger] s[k]),
        lead_ws(s) < s.len() ==> !is_ws(s[lead_ws(s) as int]),
    decreases s.len(),
{
    if s.len() > 0 && is_ws(s[0]) {
        lemma_lead_ws(s.drop_first());
        assert forall|k: int| 0 <= k < lead_ws(s) implies is_ws(#[trigger] s[k]) by {
            if k > 0 {
                assert(s[k] == s.drop_first()[k - 1]);
            }
        }
    }
}

pub proof fn lemma_trail_ws(s: Seq<char>)
    ensures
        trail_ws(s) <= s.len(),
        forall|k: int| s.len() - trail_ws(s) <= k < s.len() ==> is_ws(#[trigger] s[k]),
        trail_ws(s) < s.len() ==> !is_ws(s[s.len() - trail_ws(s) - 1]),
    decreases s.len(),
{
    if s.len() > 0 && is_ws(s.last()) {
        lemma_trail_ws(s.drop_last());
        assert forall|k: int| s.len() - trail_ws(s) <= k < s.len() implies is_ws(#[trigger] s[k]) by {
            if k < s.len() - 1 {
                assert(s[k] == s.drop_last()[k]);
            }
        }
    }
}

/// Text that starts with a non-whitespace character is not blank.
pub proof fn lemma_nonblank_first(s: Seq<char>)
    requires
        s.len() > 0,
        !is_ws(s[0]),
    ensures
        trim(s).len() > 0,
{
    assert(lead_ws(s) == 0);
    assert(trim_start(s) =~= s);
    lemma_trail_ws(s);
    if trail_ws(s) == s.len() {
        assert(is_ws(s[0]));
    }
}

/// Trimmed text that is not empty stays so when trimmed again.
pub proof fn lemma_trim_nonblank(s: Seq<char>)
    requires
        trim(s).len() > 0,
    ensures
        trim(trim(s)).len() > 0,
{
    let t1 = trim_start(s);
    lemma_lead_ws(s);
    lemma_trail_ws(t1);
    let t = trim(s);
    assert(t1[0] == s[lead_ws(s) as int]);
    assert(t[0] == t1[0]);
    lemma_nonblank_first(t);
}

/// Index of the first non-whitespace character (the length if none).
fn lead_ws_count(v: &Vec<char>, from: usize, to: usize) -> (n: usize)
    requires
        from <= to <= v.len(),
    ensures
        n == lead_ws(v@.subrange(from as int, to as int)),
{
    let mut i = to;
    let mut n: usize = 0;
    // scan from the right so that the count follows the recursive definition
    let ghost s = v@.subrange(from as int, to as int);
    while i > from
        invariant
            from <= i <= to <= v.len(),
            s == v@.subrange(from as int, to as int),
            n == lead_ws(v@.subrange(i as int, to as int)),
        decreases i - from,
    {
        let c = v[i - 1];
        assert(v@.subrange(i - 1, to as int).drop_first() =~= v@.subrange(i as int, to as int));
        if is_whitespace(c) {
            proof {
                lemma_lead_ws(v@.subrange(i as int, to as int));
            }
            n = n + 1;
        } else {
            n = 0;
        }
        i = i - 1;
    }
    n
}

fn trail_ws_count(v: &Vec<char>, from: usize, to: usize) -> (n: usize)
    requires
        from <= to <= v.len(),
    ensures
        n == trail_ws(v@.subrange(from as int, to as int)),
{
    let mut i = from;
    let mut n: usize = 0;
    while i < to
        invariant
            from <= i <= to <= v.len(),
            n == trail_ws(v@.subrange(from as int, i as int)),
        decreases to - i,
    {
        let c = v[i];
        assert(v@.subrange(from as int, i + 1).drop_last() =~= v@.subrange(from as int, i as int));
        if is_whitespace(c) {
            proof {
                lemma_trail_ws(v@.subrange(from as int, i as int));
            }
            n = n + 1;
        } else {
            n = 0;
        }
        i = i + 1;
    }
    n
}

/// Bounds `(start, end)` of `trim(v[from..to])` inside `v`.
pub fn trim_bounds(v: &Vec<char>, from: usize, to: usize) -> (r: (usize, usize))
    requires
        from <= to <= v.len(),
    ensures
        from <= r.0 <= r.1 <= to,
        v@.subrange(r.0 as int, r.1 as int) == trim(v@.subrange(from as int, to as int)),
{
    let ghost s = v@.subrange(from as int, to as int);
    let a = lead_ws_count(v, from, to);
    proof {
        lemma_lead_ws(s);
    }
    let start = from + a;
    let b = trail_ws_count(v, start, to);
    proof {
        lemma_trail_ws(v@.subrange(start as int, to as int));
        assert(trim_start(s) =~= v@.subrange(start as int, to as int));
        assert(trim(s) =~= v@.subrange(start as int, (to - b) as int));
    }
    (start, to - b)
}

/// Length of `trim_end(v[..to])`.
pub fn trim_end_len(v: &Vec<char>, to: usize) -> (n: usize)
    requires
        to <= v.len(),
    ensures
        n <= to,
        v@.take(n as int) == trim_end(v@.take(to as int)),
{
    let b = trail_ws_count(v, 0, to);
    proof {
        assert(v@.subrange(0, to as int) =~= v@.take(to as int));
        lemma_trail_ws(v@.take(to as int));
        assert(v@.take((to - b) as int) =~= trim_end(v@.take(to as int)));
    }
    to - b
}

pub fn trim_str(s: &str) -> (r: String)
    ensures
        r@ == trim(s@),
{
    let v = chars_of(s);
    let (a, b) = trim_bounds(&v, 0, v.len());
    assert(v@.subrange(0, v@.len() as int) =~= v@);
    string_of_range(&v, a, b)
}

/// `split_whitespace().join(" ")`, stated character by character: a
/// non-whitespace character that opens a word is preceded by one space
/// unless it is the first word; whitespace is dropped.
pub open spec fn collapse_ws(s: Seq<char>) -> Seq<char>
    decreases s.len(),
{
    if s.len() == 0 {
        Seq::empty()
    } else {
        let p = collapse_ws(s.drop_last());
        let c = s.last();
        if is_ws(c) {
            p
        } else if s.len() >= 2 && !is_ws(s[s.len() - 2]) {
            p.push(c)
        } else if p.len() == 0 {
            p.push(c)
        } else {
            p.push(' ').push(c)
        }
    }
}

pub fn collapse_ws_range(v: &Vec<char>, from: usize, to: usize) -> (out: Vec<char>)
    requires
        from <= to <= v.len(),
    ensures
        out@ == collapse_ws(v@.subrange(from as int, to as int)),
{
    let mut out: Vec<char> = Vec::new();
    let mut i = from;
    while i < to
        invariant
            from <= i <= to <= v.len(),
            out@ == collapse_ws(v@.subrange(from as int, i as int)),
        decreases to - i,
    {
        let c = v[i];
        let ghost s = v@.subrange(from as int, i + 1);
        assert(s.drop_last() =~= v@.subrange(from as int, i as int));
        if !is_whitespace(c) {
            if i > from && !is_whitespace(v[i - 1]) {
                out.push(c);
            } else if out.len() == 0 {
                out.push(c);
            } else {
                out.push(' ');
                out.push(c);
            }
        }
        i += 1;
    }
    out
}

pub fn collapse_ws_str(s: &str) -> (r: String)
    ensures
        r@ == collapse_ws(s@),
{
    let v = chars_of(s);
    let out = collapse_ws_range(&v, 0, v.len());
    assert(v@.subrange(0, v@.len() as int) =~= v@);
    string_of(&out)
}

// ---------------------------------------------------------------------------
// Substring search
// ---------------------------------------------------------------------------

/// `needle` occurs in `hay` starting at index `i`.
pub open spec fn occurs_at(hay: Seq<char>, needle: Seq<char>, i: int) -> bool {
    0 <= i && i + needle.len() <= hay.len() && hay.subrange(i, i + needle.len()) == needle
}

/// First occurrence of `needle` at or after `from`.
pub open spec fn find_from(hay: Seq<char>, needle: Seq<char>, from: int) -> Option<int>
    decreases hay.len() + 1 - from,
{
    if from < 0 || from + needle.len() > hay.len() {
        None
    } else if occurs_at(hay, needle, from) {
        Some(from)
    } else {
        find_from(hay, needle, from + 1)
    }
}

/// `str::find`: first occurrence.
pub open spec fn find(hay: Seq<char>, needle: Seq<char>) -> Option<int> {
    find_from(hay, needle, 0)
}

/// Last occurrence of `needle` starting at or before `upto`.
pub open spec fn rfind_upto(hay: Seq<char>, needle: Seq<char>, upto: int) -> Option<int>
    decreases upto + 1,
{
    if upto < 0 {
        None
    } else if occurs_at(hay, needle, upto) {
        Some(upto)
    } else {
        rfind_upto(hay, needle, upto - 1)
    }
}

/// `str::rfind`: last occurrence.
pub open spec fn rfind(hay: Seq<char>, needle: Seq<char>) -> Option<int> {
    rfind_upto(hay, needle, hay.len() - needle.len())
}

pub open spec fn contains(hay: Seq<char>, needle: Seq<char>) -> bool {
    find(hay, needle) is Some
}

pub open spec fn starts_with(s: Seq<char>, p: Seq<char>) -> bool {
    p.len() <= s.len() && s.take(p.len() as int) == p
}

pub open spec fn ends_with(s: Seq<char>, p: Seq<char>) -> bool {
    p.len() <= s.len() && s.skip(s.len() - p.len()) == p
}

/// Text that holds a needle at some position contains it.
pub proof fn lemma_occurs_contains(hay: Seq<char>, needle: Seq<char>, i: int)
    requires
        occurs_at(hay, needle, i),
    ensures
        contains(hay, needle),
{
    lemma_find_from(hay, needle, 0);
}

pub proof fn lemma_find_from(hay: Seq<char>, needle: Seq<char>, from: int)
    ensures
        find_from(hay, needle, from) matches Some(i) ==> from <= i && occurs_at(hay, needle, i)
            && forall|j: int| from <= j < i ==> !occurs_at(hay, needle, j),
        find_from(hay, needle, from) is None && from >= 0 ==> forall|j: int|
            from <= j ==> !occurs_at(hay, needle, j),
    decreases hay.len() + 1 - from,
{
    if from < 0 || from + needle.len() > hay.len() {
    } else if occurs_at(hay, needle, from) {
    } else {
        lemma_find_from(hay, needle, from + 1);
    }
}

pub proof fn lemma_rfind_upto(hay: Seq<char>, needle: Seq<char>, upto: int)
    ensures
        rfind_upto(hay, needle, upto) matches Some(i) ==> i <= upto && occurs_at(hay, needle, i)
            && forall|j: int| i < j <= upto ==> !occurs_at(hay, needle, j),
        rfind_upto(hay, needle, upto) is None ==> forall|j: int|
            j <= upto ==> !occurs_at(hay, needle, j),
    decreases upto + 1,
{
    if upto < 0 {
    } else if occurs_at(hay, needle, upto) {
    } else {
        lemma_rfind_upto(hay, needle, upto - 1);
    }
}

/// Whether `n` occurs in `h` at index `i` (exec).
pub fn match_at(h: &Vec<char>, n: &Vec<char>, i: usize) -> (r: bool)
    ensures
        r == occurs_at(h@, n@, i as int),
{
    if i > h.len() || n.len() > h.len() - i {
        return false;
    }
    let mut k: usize = 0;
    while k < n.len()
        invariant
            i + n.len() <= h.len(),
            k <= n.len(),
            forall|j: int| 0 <= j < k ==> h@[i + j] == n@[j],
        decreases n.len() - k,
    {
        if h[i + k] != n[k] {
            assert(h@.subrange(i as int, i + n.len())[k as int] != n@[k as int]);
            return false;
        }
        k += 1;
    }
    assert(h@.subrange(i as int, i + n.len()) =~= n@);
    true
}

/// `find_from` (exec).
pub fn find_chars_from(h: &Vec<char>, n: &Vec<char>, from: usize) -> (r: Option<usize>)
    ensures
        r matches Some(i) ==> find_from(h@, n@, from as int) == Some(i as int),
        r is None ==> find_from(h@, n@, from as int) is None,
{
    proof {
        lemma_find_from(h@, n@, from as int);
    }
    if n.len() > h.len() || from > h.len() - n.len() {
        return None;
    }
    let last = h.len() - n.len();
    let mut i = from;
    loop
        invariant
            from <= i <= last,
            last + n.len() == h.len(),
            find_from(h@, n@, from as int) == find_from(h@, n@, i as int),
        decreases last - i,
    {
        if match_at(h, n, i) {
            return Some(i);
        }
        if i == last {
            assert(find_from(h@, n@, i + 1) is None);
            return None;
        }
        i += 1;
    }
}

pub fn find_chars(h: &Vec<char>, n: &Vec<char>) -> (r: Option<usize>)
    ensures
        r matches Some(i) ==> find(h@, n@) == Some(i as int),
        r is None ==> find(h@, n@) is None,
{
    find_chars_from(h, n, 0)
}

/// `rfind` (exec).
pub fn rfind_chars(h: &Vec<char>, n: &Vec<char>) -> (r: Option<usize>)
    ensures
        r matches Some(i) ==> rfind(h@, n@) == Some(i as int),
        r is None ==> rfind(h@, n@) is None,
{
    if n.len() > h.len() {
        return None;
    }
    let mut i = h.len() - n.len();
    loop
        invariant
            i + n.len() <= h.len(),
            rfind(h@, n@) == rfind_upto(h@, n@, i as int),
        decreases i,
    {
        if match_at(h, n, i) {
            return Some(i);
        }
        if i == 0 {
            assert(rfind_upto(h@, n@, -1) is None);
            return None;
        }
        i -= 1;
    }
}

pub fn contains_chars(h: &Vec<char>, n: &Vec<char>) -> (r: bool)
    ensures
        r == contains(h@, n@),
{
    find_chars(h, n).is_some()
}

/// `str::contains` on string slices.
pub fn str_contains(h: &str, n: &str) -> (r: bool)
    ensures
        r == contains(h@, n@),
{
    let hv = chars_of(h);
    let nv = chars_of(n);
    contains_chars(&hv, &nv)
}

pub fn starts_with_chars(s: &Vec<char>, p: &Vec<char>) -> (r: bool)
    ensures
        r == starts_with(s@, p@),
{
    let r = match_at(s, p, 0);
    proof {
        if r {
            assert(s@.take(p@.len() as int) =~= s@.subrange(0, p@.len() as int));
        }
        if starts_with(s@, p@) {
            assert(s@.take(p@.len() as int) =~= s@.subrange(0, p@.len() as int));
        }
    }
    r
}

pub fn ends_with_chars(s: &Vec<char>, p: &Vec<char>) -> (r: bool)
    ensures
        r == ends_with(s@, p@),
{
    if p.len() > s.len() {
        return false;
    }
    let r = match_at(s, p, s.len() - p.len());
    proof {
        assert(s@.skip(s@.len() - p@.len()) =~= s@.subrange(
            s@.len() - p@.len(),
            s@.len() as int,
        ));
    }
    r
}

pub fn str_starts_with(s: &str, p: &str) -> (r: bool)
    ensures
        r == starts_with(s@, p@),
{
    let a = chars_of(s);
    let b = chars_of(p);
    starts_with_chars(&a, &b)
}

pub fn str_ends_with(s: &str, p: &str) -> (r: bool)
    ensures
        r == ends_with(s@, p@),
{
    let a = chars_of(s);
    let b = chars_of(p);
    ends_with_chars(&a, &b)
}

} // verus!

verus! {

/// Maximal runs of non-whitespace characters (`split_whitespace`).
pub open spec fn ws_words(s: Seq<char>) -> Seq<Seq<char>>
    decreases s.len(),
{
    if s.len() == 0 {
        Seq::empty()
    } else {
        let p = ws_words(s.drop_last());
        let c = s.last();
        if is_ws(c) {
            p
        } else if s.len() >= 2 && !is_ws(s[s.len() - 2]) {
            p.update(p.len() - 1, p.last().push(c))
        } else {
            p.push(seq![c])
        }
    }
}

pub open spec fn vecs_view(ws: Seq<Vec<char>>) -> Seq<Seq<char>> {
    ws.map_values(|w: Vec<char>| w@)
}

pub fn split_whitespace_words(m: &Vec<char>) -> (ws: Vec<Vec<char>>)
    ensures
        vecs_view(ws@) == ws_words(m@),
{
    let mut ws: Vec<Vec<char>> = Vec::new();
    let mut cur: Vec<char> = Vec::new();
    let mut in_word = false;
    let mut i: usize = 0;
    while i < m.len()
        invariant
            i <= m.len(),
            in_word == (i > 0 && !is_ws(m@[i - 1])),
            ws_words(m@.take(i as int)) == if in_word {
                vecs_view(ws@).push(cur@)
            } else {
                vecs_view(ws@)
            },
        decreases m.len() - i,
    {
        let c = m[i];
        let ghost before = vecs_view(ws@);
        assert(m@.take(i + 1).drop_last() =~= m@.take(i as int));
        if is_whitespace(c) {
            if in_word {
                ws.push(cur);
                cur = Vec::new();
                assert(vecs_view(ws@) =~= before.push(vecs_view(ws@).last()));
            }
            in_word = false;
        } else {
            if in_word {
                cur.push(c);
            } else {
                cur = Vec::new();
                cur.push(c);
                in_word = true;
            }
            assert(ws_words(m@.take(i + 1)) =~= vecs_view(ws@).push(cur@));
        }
        i += 1;
    }
    if in_word {
        ws.push(cur);
        assert(vecs_view(ws@) =~= ws_words(m@.take(i as int)));
    }
    assert(m@.take(m.len() as int) =~= m@);
    ws
}

pub fn vec_of_range(v: &Vec<char>, from: usize, to: usize) -> (out: Vec<char>)
    requires
        from <= to <= v.len(),
    ensures
        out@ == v@.subrange(from as int, to as int),
{
    let mut out: Vec<char> = Vec::new();
    let mut i = from;
    while i < to
        invariant
            from <= i <= to <= v.len(),
            out@ == v@.subrange(from as int, i as int),
        decreases to - i,
    {
        out.push(v[i]);
        assert(v@.subrange(from as int, i + 1) =~= v@.subrange(from as int, i as int).push(v@[i as int]));
        i += 1;
    }
    out
}

pub fn trimmed_vec(v: &Vec<char>) -> (out: Vec<char>)
    ensures
        out@ == trim(v@),
{
    let (a, b) = trim_bounds(v, 0, v.len());
    assert(v@.subrange(0, v@.len() as int) =~= v@);
    vec_of_range(v, a, b)
}

pub fn lower_vec(v: &Vec<char>) -> (out: Vec<char>)
    ensures
        out@ == lower_of(v@),
{
    let s = string_of(v);
    let l = to_lowercase(s.as_str());
    chars_of(l.as_str())
}

/// Index of the first character at or after `from` equal to `c`.
pub open spec fn index_of_from(s: Seq<char>, c: char, from: int) -> Option<int>
    decreases s.len() - from,
{
    if from < 0 || from >= s.len() {
        None
    } else if s[from] == c {
        Some(from)
    } else {
        index_of_from(s, c, from + 1)
    }
}

pub fn index_of_char(v: &Vec<char>, c: char, from: usize) -> (r: Option<usize>)
    ensures
        r matches Some(i) ==> index_of_from(v@, c, from as int) == Some(i as int) && from <= i < v.len(),
        r is None ==> index_of_from(v@, c, from as int) is None,
{
    let mut i = from;
    while i < v.len()
        invariant
            from <= i,
            index_of_from(v@, c, from as int) == index_of_from(v@, c, i as int),
        decreases v.len() - i,
    {
        if v[i] == c {
            return Some(i);
        }
        i += 1;
    }
    None
}

/// `s` with every leading `c` removed (`trim_start_matches(c)`).
pub open spec fn trim_start_char(s: Seq<char>, c: char) -> Seq<char>
    decreases s.len(),
{
    if s.len() > 0 && s[0] == c {
        trim_start_char(s.drop_first(), c)
    } else {
        s
    }
}

pub fn trim_start_char_vec(v: &Vec<char>, c: char) -> (out: Vec<char>)
    ensures
        out@ == trim_start_char(v@, c),
{
    let mut i: usize = 0;
    assert(v@.skip(0) =~= v@);
    while i < v.len() && v[i] == c
        invariant
            i <= v.len(),
            trim_start_char(v@, c) == trim_start_char(v@.skip(i as int), c),
        decreases v.len() - i,
    {
        assert(v@.skip(i as int).drop_first() =~= v@.skip(i + 1));
        i += 1;
    }
    assert(v@.skip(i as int) =~= v@.subrange(i as int, v@.len() as int));
    vec_of_range(v, i, v.len())
}

} // verus!

verus! {

pub fn seq_equal(a: &Vec<char>, b: &Vec<char>) -> (r: bool)
    ensures
        r == (a@ == b@),
{
    if a.len() != b.len() {
        return false;
    }
    let mut i: usize = 0;
    while i < a.len()
        invariant
            a.len() == b.len(),
            i <= a.len(),
            forall|k: int| 0 <= k < i ==> a@[k] == b@[k],
        decreases a.len() - i,
    {
        if a[i] != b[i] {
            return false;
        }
        i += 1;
    }
    assert(a@ =~= b@);
    true
}

} // verus!

verus! {

/// Lexicographic `<` on character sequences (the order of `String`).
pub open spec fn lex_lt(a: Seq<char>, b: Seq<char>) -> bool
    decreases a.len(),
{
    if b.len() == 0 {
        false
    } else if a.len() == 0 {
        true
    } else if a[0] != b[0] {
        a[0] < b[0]
    } else {
        lex_lt(a.drop_first(), b.drop_first())
    }
}

pub proof fn lemma_lex_total(a: Seq<char>, b: Seq<char>)
    ensures
        a != b && !lex_lt(a, b) ==> lex_lt(b, a),
    decreases a.len(),
{
    if a.len() > 0 && b.len() > 0 && a[0] == b[0] {
        lemma_lex_total(a.drop_first(), b.drop_first());
        if a.drop_first() == b.drop_first() {
            assert(a =~= seq![a[0]] + a.drop_first());
            assert(b =~= seq![b[0]] + b.drop_first());
        }
    } else if a.len() == 0 && b.len() == 0 {
        assert(a =~= b);
    }
}

pub proof fn lemma_lex_irreflexive(a: Seq<char>)
    ensures
        !lex_lt(a, a),
    decreases a.len(),
{
    if a.len() > 0 {
        lemma_lex_irreflexive(a.drop_first());
    }
}

pub proof fn lemma_lex_trans(a: Seq<char>, b: Seq<char>, c: Seq<char>)
    requires
        lex_lt(a, b),
        lex_lt(b, c),
    ensures
        lex_lt(a, c),
    decreases a.len(),
{
    if a.len() > 0 && a[0] == b[0] && b[0] == c[0] {
        lemma_lex_trans(a.drop_first(), b.drop_first(), c.drop_first());
    }
}

pub proof fn lemma_lex_asym(a: Seq<char>, b: Seq<char>)
    requires
        lex_lt(a, b),
    ensures
        !lex_lt(b, a),
{
    if lex_lt(b, a) {
        lemma_lex_trans(a, b, a);
        lemma_lex_irreflexive(a);
    }
}

pub fn lex_less(a: &Vec<char>, b: &Vec<char>) -> (r: bool)
    ensures
        r == lex_lt(a@, b@),
{
    let mut i: usize = 0;
    assert(a@.skip(0) =~= a@);
    assert(b@.skip(0) =~= b@);
    loop
        invariant
            i <= a.len(),
            i <= b.len(),
            lex_lt(a@, b@) == lex_lt(a@.skip(i as int), b@.skip(i as int)),
        decreases a.len() - i,
    {
        if i == b.len() {
            return false;
        }
        if i == a.len() {
            return true;
        }
        if a[i] != b[i] {
            return a[i] < b[i];
        }
        assert(a@.skip(i as int).drop_first() =~= a@.skip(i + 1));
        assert(b@.skip(i as int).drop_first() =~= b@.skip(i + 1));
        i += 1;
    }
}

/// Adjacent entries strictly increase.
pub open spec fn strictly_sorted(s: Seq<Seq<char>>) -> bool {
    forall|i: int| 0 <= i < s.len() - 1 ==> lex_lt(#[trigger] s[i], s[i + 1])
}

/// Insert `x` into a strictly sorted vector unless present.
pub fn insert_sorted(v: &mut Vec<Vec<char>>, x: Vec<char>)
    requires
        strictly_sorted(vecs_view(old(v)@)),
    ensures
        strictly_sorted(vecs_view(final(v)@)),
        vecs_view(final(v)@).to_set() == vecs_view(old(v)@).to_set().insert(x@),
{
    let ghost old_v = vecs_view(v@);
    let mut p: usize = 0;
    while p < v.len() && lex_less(&v[p], &x)
        invariant
            p <= v.len(),
            vecs_view(v@) == old_v,
            forall|k: int| 0 <= k < p ==> lex_lt(#[trigger] old_v[k], x@),
        decreases v.len() - p,
    {
        p += 1;
    }
    if p < v.len() && seq_equal(&v[p], &x) {
        assert(old_v.to_set().insert(x@) =~= old_v.to_set()) by {
            assert(old_v.contains(x@)) by {
                assert(old_v[p as int] == x@);
            }
        }
        return;
    }
    proof {
        if p < v.len() {
            lemma_lex_total(old_v[p as int], x@);
        }
    }
    v.insert(p, x);
    let ghost nv = vecs_view(v@);
    assert(nv =~= old_v.insert(p as int, x@));
    assert forall|i: int| 0 <= i < nv.len() - 1 implies lex_lt(#[trigger] nv[i], nv[i + 1]) by {
        if i + 1 < p {
            assert(nv[i] == old_v[i] && nv[i + 1] == old_v[i + 1]);
        } else if i + 1 == p {
            assert(nv[i] == old_v[i]);
        } else if i == p {
        } else {
            assert(nv[i] == old_v[i - 1] && nv[i + 1] == old_v[i]);
        }
    }
    assert(nv.to_set() =~= old_v.to_set().insert(x@)) by {
        assert forall|y: Seq<char>| nv.to_set().contains(y) <==> old_v.to_set().insert(x@).contains(y) by {
            if nv.contains(y) {
                let j = choose|j: int| 0 <= j < nv.len() && nv[j] == y;
                if j < p {
                    assert(old_v[j] == y);
                } else if j > p {
                    assert(old_v[j - 1] == y);
                }
            }
            if old_v.contains(y) {
                let j = choose|j: int| 0 <= j < old_v.len() && old_v[j] == y;
                if j < p {
                    assert(nv[j] == y);
                } else {
                    assert(nv[j + 1] == y);
                }
            }
            if y == x@ {
                assert(nv[p as int] == y);
            }
        }
    }
}

} // verus!

verus! {

// ---------------------------------------------------------------------------
// More text helpers: ASCII upper case, splitting and joining
// ---------------------------------------------------------------------------

pub open spec fn ascii_upper(c: char) -> char {
    if 'a' <= c && c <= 'z' {
        ((c as u32) - 32) as char
    } else {
        c
    }
}

pub fn to_ascii_upper(c: char) -> (r: char)
    ensures
        r == ascii_upper(c),
{
    if 'a' <= c && c <= 'z' {
        let v: u32 = (c as u32) - 32;
        assert(0x41 <= v <= 0x5a);
        char_from_ascii(v)
    } else {
        c
    }
}

pub proof fn lemma_index_of(s: Seq<char>, c: char, from: int)
    ensures
        index_of_from(s, c, from) matches Some(i) ==> from <= i < s.len() && s[i] == c
            && forall|j: int| from <= j < i ==> s[j] != c,
        index_of_from(s, c, from) is None && from >= 0 ==> forall|j: int|
            from <= j < s.len() ==> s[j] != c,
    decreases s.len() - from,
{
    if 0 <= from < s.len() && s[from] != c {
        lemma_index_of(s, c, from + 1);
    }
}

/// `s.trim_start()` (exec).
pub fn trim_start_vec(v: &Vec<char>) -> (out: Vec<char>)
    ensures
        out@ == trim_start(v@),
{
    let a = lead_ws_count(v, 0, v.len());
    proof {
        assert(v@.subrange(0, v@.len() as int) =~= v@);
        lemma_lead_ws(v@);
    }
    let out = vec_of_range(v, a, v.len());
    assert(out@ =~= trim_start(v@));
    out
}

/// The part of `s` before the first `c` (all of `s` without one).
pub open spec fn before_char(s: Seq<char>, c: char) -> Seq<char> {
    match index_of_from(s, c, 0) {
        Some(b) => s.take(b),
        None => s,
    }
}

pub fn before_char_vec(v: &Vec<char>, c: char) -> (out: Vec<char>)
    ensures
        out@ == before_char(v@, c),
{
    match index_of_char(v, c, 0) {
        Some(b) => vec_of_range(v, 0, b),
        None => {
            assert(v@.subrange(0, v@.len() as int) =~= v@);
            vec_of_range(v, 0, v.len())
        },
    }
}

/// `str::split` on a non-empty separator: the pieces between the
/// occurrences found left to right.
pub open spec fn split_on(s: Seq<char>, sep: Seq<char>) -> Seq<Seq<char>>
    decreases s.len(),
{
    if sep.len() == 0 {
        seq![s]
    } else {
        match find(s, sep) {
            Some(i) => {
                proof {
                    lemma_find_from(s, sep, 0);
                }
                seq![s.take(i)] + split_on(s.skip(i + sep.len()), sep)
            },
            None => seq![s],
        }
    }
}

pub fn split_on_vec(s: &Vec<char>, sep: &Vec<char>) -> (out: Vec<Vec<char>>)
    requires
        sep.len() > 0,
    ensures
        vecs_view(out@) == split_on(s@, sep@),
{
    let mut out: Vec<Vec<char>> = Vec::new();
    let mut rest = vec_of_range(s, 0, s.len());
    assert(rest@ =~= s@);
    loop
        invariant
            sep.len() > 0,
            split_on(s@, sep@) == vecs_view(out@) + split_on(rest@, sep@),
        decreases rest.len(),
    {
        proof {
            lemma_find_from(rest@, sep@, 0);
        }
        match find_chars(&rest, sep) {
            Some(i) => {
                let piece = vec_of_range(&rest, 0, i);
                let next = vec_of_range(&rest, i + sep.len(), rest.len());
                let ghost prev = vecs_view(out@);
                assert(piece@ =~= rest@.take(i as int));
                assert(next@ =~= rest@.skip(i + sep@.len()));
                out.push(piece);
                assert(vecs_view(out@) =~= prev + seq![piece@]);
                assert(split_on(rest@, sep@) == seq![piece@] + split_on(next@, sep@));
                assert(prev + (seq![piece@] + split_on(next@, sep@)) =~= vecs_view(out@)
                    + split_on(next@, sep@));
                rest = next;
            },
            None => {
                let ghost prev = vecs_view(out@);
                let ghost last = rest@;
                out.push(rest);
                assert(vecs_view(out@) =~= prev + seq![last]);
                return out;
            },
        }
    }
}

/// The pieces joined with `sep` between consecutive ones (`join`).
pub open spec fn join_with(ls: Seq<Seq<char>>, sep: char) -> Seq<char>
    decreases ls.len(),
{
    if ls.len() == 0 {
        Seq::empty()
    } else if ls.len() == 1 {
        ls[0]
    } else {
        join_with(ls.drop_last(), sep) + seq![sep] + ls.last()
    }
}

pub fn join_with_vec(ls: &Vec<Vec<char>>, sep: char) -> (out: Vec<char>)
    ensures
        out@ == join_with(vecs_view(ls@), sep),
{
    let mut out: Vec<char> = Vec::new();
    let mut i: usize = 0;
    while i < ls.len()
        invariant
            i <= ls.len(),
            out@ == join_with(vecs_view(ls@).take(i as int), sep),
        decreases ls.len() - i,
    {
        let ghost before = out@;
        if i > 0 {
            out.push(sep);
        }
        let mut piece = vec_of_range(&ls[i], 0, ls[i].len());
        assert(piece@ =~= ls@[i as int]@);
        out.append(&mut piece);
        proof {
            let t = vecs_view(ls@).take(i + 1);
            assert(t.drop_last() =~= vecs_view(ls@).take(i as int));
            if i == 0 {
                assert(out@ =~= t[0]);
            } else {
                assert(out@ =~= before + seq![sep] + t.last());
            }
        }
        i += 1;
    }
    assert(vecs_view(ls@).take(ls.len() as int) =~= vecs_view(ls@));
    out
}

/// Some pattern of `pats` occurs in `s`.
pub open spec fn any_contains(s: Seq<char>, pats: Seq<Seq<char>>) -> bool {
    exists|k: int| 0 <= k < pats.len() && contains(s, #[trigger] pats[k])
}

pub fn any_contains_vec(s: &Vec<char>, pats: &Vec<Vec<char>>) -> (r: bool)
    ensures
        r == any_contains(s@, vecs_view(pats@)),
{
    let mut k: usize = 0;
    while k < pats.len()
        invariant
            k <= pats.len(),
            forall|j: int| 0 <= j < k ==> !contains(s@, #[trigger] vecs_view(pats@)[j]),
        decreases pats.len() - k,
    {
        if contains_chars(s, &pats[k]) {
            assert(contains(s@, vecs_view(pats@)[k as int]));
            return true;
        }
        k += 1;
    }
    false
}

} // verus!

verus! {

/// Appends the characters of `s`.
pub fn push_str_vec(v: &mut Vec<char>, s: &str)
    ensures
        final(v)@ == old(v)@ + s@,
{
    let mut t = chars_of(s);
    v.append(&mut t);
}

/// Appends the characters of `w`.
pub fn push_vec(v: &mut Vec<char>, w: &Vec<char>)
    ensures
        final(v)@ == old(v)@ + w@,
{
    let mut t = vec_of_range(w, 0, w.len());
    assert(t@ =~= w@);
    v.append(&mut t);
}

/// The pieces joined with the separator `sep` (`join`).
pub open spec fn join_sep(ls: Seq<Seq<char>>, sep: Seq<char>) -> Seq<char>
    decreases ls.len(),
{
    if ls.len() == 0 {
        Seq::empty()
    } else if ls.len() == 1 {
        ls[0]
    } else {
        join_sep(ls.drop_last(), sep) + sep + ls.last()
    }
}

pub fn join_sep_vec(ls: &Vec<Vec<char>>, sep: &str) -> (out: Vec<char>)
    ensures
        out@ == join_sep(vecs_view(ls@), sep@),
{
    let mut out: Vec<char> = Vec::new();
    let mut i: usize = 0;
    while i < ls.len()
        invariant
            i <= ls.len(),
            out@ == join_sep(vecs_view(ls@).take(i as int), sep@),
        decreases ls.len() - i,
    {
        let ghost before = out@;
        if i > 0 {
            push_str_vec(&mut out, sep);
        }
        push_vec(&mut out, &ls[i]);
        proof {
            let t = vecs_view(ls@).take(i + 1);
            assert(t.drop_last() =~= vecs_view(ls@).take(i as int));
            if i == 0 {
                assert(out@ =~= t[0]);
            } else {
                assert(out@ =~= before + sep@ + t.last());
            }
        }
        i += 1;
    }
    assert(vecs_view(ls@).take(ls.len() as int) =~= vecs_view(ls@));
    out
}

/// The views of a slice of strings.
pub open spec fn strs_view(ls: Seq<String>) -> Seq<Seq<char>> {
    ls.map_values(|s: String| s@)
}

/// The strings as character vectors.
pub fn vecs_of_strings(ls: &[String]) -> (out: Vec<Vec<char>>)
    ensures
        vecs_view(out@) == strs_view(ls@),
{
    let mut out: Vec<Vec<char>> = Vec::new();
    let mut i: usize = 0;
    while i < ls.len()
        invariant
            i <= ls.len(),
            vecs_view(out@) == strs_view(ls@).take(i as int),
        decreases ls.len() - i,
    {
        let s = &ls[i];
        let v = chars_of(s.as_str());
        assert(v@ == ls@[i as int]@);
        let ghost before = vecs_view(out@);
        let ghost vv = v@;
        out.push(v);
        assert(vecs_view(out@) =~= before.push(vv));
        assert(strs_view(ls@).take(i + 1) =~= strs_view(ls@).take(i as int).push(vv));
        i += 1;
    }
    assert(strs_view(ls@).take(ls.len() as int) =~= strs_view(ls@));
    out
}

/// `s.chars().take(n)`.
pub open spec fn take_chars(s: Seq<char>, n: int) -> Seq<char> {
    if s.len() <= n {
        s
    } else {
        s.take(n)
    }
}

pub fn take_chars_vec(v: &Vec<char>, n: usize) -> (out: Vec<char>)
    ensures
        out@ == take_chars(v@, n as int),
{
    if v.len() <= n {
        let out = vec_of_range(v, 0, v.len());
        assert(out@ =~= v@);
        out
    } else {
        vec_of_range(v, 0, n)
    }
}

} // verus!

verus! {

/// Decimal digits of `n` (`to_string` of an unsigned integer).
pub open spec fn decimal(n: nat) -> Seq<char>
    decreases n,
{
    if n < 10 {
        seq![digit_char(n)]
    } else {
        decimal(n / 10) + seq![digit_char(n % 10)]
    }
}

pub open spec fn digit_char(d: nat) -> char {
    ((d + 48) as u32) as char
}

pub fn decimal_vec(n: u64) -> (r: Vec<char>)
    ensures
        r@ == decimal(n as nat),
    decreases n,
{
    let d: u64 = n % 10;
    let c = char_from_ascii((d + 48) as u32);
    if n < 10 {
        vec![c]
    } else {
        let mut r = decimal_vec(n / 10);
        r.push(c);
        r
    }
}

} // verus!

verus! {

/// The first `n` items (all of them when there are fewer).
pub open spec fn take_seq<A>(s: Seq<A>, n: int) -> Seq<A> {
    if s.len() <= n {
        s
    } else {
        s.take(n)
    }
}

/// A copy of the first `n` strings.
pub fn take_strings(v: &Vec<String>, n: usize) -> (r: Vec<String>)
    ensures
        r.deep_view() == take_seq(v.deep_view(), n as int),
{
    let m: usize = if v.len() <= n {
        v.len()
    } else {
        n
    };
    let mut r: Vec<String> = Vec::new();
    let mut i: usize = 0;
    while i < m
        invariant
            i <= m <= v.len(),
            r.len() == i,
            forall|k: int| 0 <= k < i ==> #[trigger] r@[k]@ == v@[k]@,
        decreases m - i,
    {
        r.push(v[i].clone());
        i += 1;
    }
    assert(r.deep_view() =~= take_seq(v.deep_view(), n as int));
    r
}


// ---------------------------------------------------------------------------
// Decimal numbers
// ---------------------------------------------------------------------------

/// The value of a run of decimal digits.
pub open spec fn digits_value(d: Seq<char>) -> nat
    decreases d.len(),
{
    if d.len() == 0 {
        0
    } else {
        digits_value(d.drop_last()) * 10 + ((d.last() as int) - ('0' as int)) as nat
    }
}

/// Every character is an ASCII digit.
pub open spec fn all_digits(d: Seq<char>) -> bool {
    forall|i: int| 0 <= i < d.len() ==> is_digit(#[trigger] d[i])
}

/// `str::parse::<u64>`: an optional '+', then one or more ASCII digits
/// whose value fits in 64 bits.
pub open spec fn parse_u64_spec(s: Seq<char>) -> Option<u64> {
    let d = if s.len() > 0 && s[0] == '+' {
        s.drop_first()
    } else {
        s
    };
    if d.len() > 0 && all_digits(d) && digits_value(d) <= u64::MAX {
        Some(digits_value(d) as u64)
    } else {
        None
    }
}

proof fn lemma_digits_value_grows(d: Seq<char>, i: int)
    requires
        0 <= i <= d.len(),
        forall|k: int| 0 <= k < d.len() ==> is_digit(#[trigger] d[k]),
    ensures
        digits_value(d.take(i)) <= digits_value(d),
    decreases d.len() - i,
{
    if i < d.len() {
        let e = d.drop_last();
        assert forall|k: int| 0 <= k < e.len() implies is_digit(#[trigger] e[k]) by {
            assert(e[k] == d[k]);
        }
        if i < d.len() {
            lemma_digits_value_grows(e, i);
            assert(e.take(i) =~= d.take(i));
        }
    } else {
        assert(d.take(i) =~= d);
    }
}

/// Parse a decimal `u64` as `str::parse::<u64>` does.
pub fn parse_u64(s: &str) -> (r: Option<u64>)
    ensures
        r == parse_u64_spec(s@),
{
    let cs = chars_of(s);
    let start: usize = if cs.len() > 0 && cs[0] == '+' {
        1
    } else {
        0
    };
    let ghost d = if s@.len() > 0 && s@[0] == '+' {
        s@.drop_first()
    } else {
        s@
    };
    assert(d =~= cs@.skip(start as int));
    if start >= cs.len() {
        return None;
    }
    let mut acc: u64 = 0;
    let mut i: usize = start;
    while i < cs.len()
        invariant
            start <= i <= cs.len(),
            cs@ == s@,
            d == cs@.skip(start as int),
            d == (if s@.len() > 0 && s@[0] == '+' {
                s@.drop_first()
            } else {
                s@
            }),
            forall|k: int| 0 <= k < i - start ==> is_digit(#[trigger] d[k]),
            acc == digits_value(d.take(i - start)),
        decreases cs.len() - i,
    {
        let c = cs[i];
        assert(d[i - start] == c);
        assert(d.take(i - start + 1).drop_last() =~= d.take(i - start));
        if !is_ascii_digit(c) {
            assert(!is_digit(d[i - start]));
            return None;
        }
        let v = (c as u32 - '0' as u32) as u64;
        assert(v == (c as int) - ('0' as int));
        assert(d.take(i - start + 1).last() == c);
        assert(digits_value(d.take(i - start + 1)) == acc * 10 + v);
        if acc > (u64::MAX - v) / 10 {
            proof {
                assert(acc * 10 + v > u64::MAX) by (nonlinear_arith)
                    requires
                        acc > (u64::MAX - v) / 10,
                        v <= 9,
                ;
                if all_digits(d) {
                    lemma_digits_value_grows(d, i - start + 1);
                    assert(digits_value(d) > u64::MAX);
                }
            }
            return None;
        }
        proof {
            assert(acc * 10 + v <= u64::MAX) by (nonlinear_arith)
                requires
                    acc <= (u64::MAX - v) / 10,
                    v <= 9,
            ;
        }
        acc = acc * 10 + v;
        i += 1;
    }
    assert(d.take(i - start) =~= d);
    Some(acc)
}

} // verus!
