//! Stable slugs: the join key between the state file and the site.
use vstd::prelude::*;
use crate::text::{
    alnum_of, chars_of, ends_with, ends_with_chars, is_alphanumeric, is_whitespace, is_ws,
    lower_of, push_vec, seq_equal, string_of, to_lowercase, trim, trim_str,
};
use heck::ToSnakeCase;

verus! {

broadcast use vstd::string::group_string_axioms;

/// What heck's `ToSnakeCase::to_snake_case` gives for a string.
pub uninterp spec fn snake_of(s: Seq<char>) -> Seq<char>;

/// `heck::ToSnakeCase::to_snake_case`; its result is named by `snake_of`.
#[verifier::external_body]
fn to_snake_case(s: &str) -> (r: String)
    ensures
        r@ == snake_of(s@),
{
    s.to_snake_case()
}

/// Characters that a title may hold but a slug may not; each becomes '-'.
pub open spec fn is_reserved(c: char) -> bool {
    c == '/' || c == '\\' || c == ':' || c == '*' || c == '?' || c == '"' || c == '<' || c == '>'
        || c == '|' || c == '#' || c == '[' || c == ']'
}

pub open spec fn dash_reserved(c: char) -> char {
    if is_reserved(c) {
        '-'
    } else {
        c
    }
}

/// Trimmed, lower-cased title with reserved characters replaced by '-'.
pub open spec fn normalize_for_slug(t: Seq<char>) -> Seq<char> {
    lower_of(trim(t)).map_values(|c: char| dash_reserved(c))
}

/// Separators between slug words.
pub open spec fn is_word_sep(c: char) -> bool {
    is_ws(c) || c == '-' || c == '_'
}

/// The non-empty runs of non-separator characters, in order.
pub open spec fn fields(s: Seq<char>) -> Seq<Seq<char>>
    decreases s.len(),
{
    if s.len() == 0 {
        Seq::empty()
    } else {
        let p = fields(s.drop_last());
        let c = s.last();
        if is_word_sep(c) {
            p
        } else if s.len() >= 2 && !is_word_sep(s[s.len() - 2]) {
            p.update(p.len() - 1, p.last().push(c))
        } else {
            p.push(seq![c])
        }
    }
}

/// The alphanumeric characters of `s`, in order.
pub open spec fn keep_alnum(s: Seq<char>) -> Seq<char>
    decreases s.len(),
{
    if s.len() == 0 {
        Seq::empty()
    } else if alnum_of(s.last()) {
        keep_alnum(s.drop_last()).push(s.last())
    } else {
        keep_alnum(s.drop_last())
    }
}

/// Words joined by '-': every word after the first is preceded by '-', and
/// contributes the snake case of its alphanumeric characters, if any.
pub open spec fn join_slug_words(ws: Seq<Seq<char>>) -> Seq<char>
    decreases ws.len(),
{
    if ws.len() == 0 {
        Seq::empty()
    } else {
        let p = join_slug_words(ws.drop_last());
        let p2 = if ws.len() > 1 {
            p.push('-')
        } else {
            p
        };
        let cl = keep_alnum(ws.last());
        if cl.len() == 0 {
            p2
        } else {
            p2 + snake_of(cl)
        }
    }
}

pub open spec fn game_word() -> Seq<char> {
    seq!['g', 'a', 'm', 'e']
}

pub open spec fn free_download() -> Seq<char> {
    seq!['f', 'r', 'e', 'e', '-', 'd', 'o', 'w', 'n', 'l', 'o', 'a', 'd']
}

/// The slug before the byte cap and the suffix: the joined words, or
/// "game" when nothing is left.
pub open spec fn slug_base(t: Seq<char>) -> Seq<char> {
    let b = join_slug_words(fields(normalize_for_slug(t)));
    if b.len() == 0 {
        game_word()
    } else {
        b
    }
}

/// Bytes of one character in UTF-8.
pub open spec fn utf8_width(c: char) -> nat {
    if (c as u32) < 0x80 {
        1
    } else if (c as u32) < 0x800 {
        2
    } else if (c as u32) < 0x10000 {
        3
    } else {
        4
    }
}

/// Bytes of a character sequence in UTF-8 (`str::len`).
pub open spec fn byte_len(s: Seq<char>) -> nat
    decreases s.len(),
{
    if s.len() == 0 {
        0
    } else {
        utf8_width(s[0]) + byte_len(s.drop_first())
    }
}

/// Number of leading characters that fit in `n` bytes.
pub open spec fn fit(s: Seq<char>, n: int) -> nat
    decreases s.len(),
{
    if s.len() == 0 || utf8_width(s[0]) > n {
        0
    } else {
        1 + fit(s.drop_first(), n - utf8_width(s[0]))
    }
}

/// Byte budget of the slug base: 100 minus '-' and the suffix.
pub open spec fn base_budget() -> int {
    86
}

/// Trailing '-' characters removed.
pub open spec fn strip_dashes(s: Seq<char>) -> Seq<char>
    decreases s.len(),
{
    if s.len() > 0 && s.last() == '-' {
        strip_dashes(s.drop_last())
    } else {
        s
    }
}

/// The keyword every slug ends with: "-free-download".
pub open spec fn keyword() -> Seq<char> {
    seq!['-'] + free_download()
}

/// Trailing dashes and every trailing "-free-download" removed (a base that
/// is just "free-download" leaves nothing), so the keyword is added once.
pub open spec fn without_keyword(s: Seq<char>) -> Seq<char>
    decreases s.len(),
{
    let d = strip_dashes(s);
    if d == free_download() {
        Seq::empty()
    } else if ends_with(d, keyword()) {
        proof {
            lemma_strip_dashes(s);
        }
        without_keyword(d.take(d.len() - 14))
    } else {
        d
    }
}

/// The leading characters that fit in the base's byte budget.
pub open spec fn cut(b: Seq<char>) -> Seq<char> {
    if byte_len(b) > base_budget() {
        b.take(fit(b, base_budget()) as int)
    } else {
        b
    }
}

/// The slug before its keyword: the base without a keyword, cut to 86
/// bytes, without a keyword again; "game" when nothing is left.
pub open spec fn slug_core(t: Seq<char>) -> Seq<char> {
    let c = without_keyword(cut(without_keyword(slug_base(t))));
    if c.len() == 0 {
        game_word()
    } else {
        c
    }
}

/// The slug of a title: its core followed by "-free-download".
pub open spec fn slug_spec(t: Seq<char>) -> Seq<char> {
    slug_core(t) + keyword()
}

// ---------------------------------------------------------------------------
// Lemmas
// ---------------------------------------------------------------------------

pub proof fn lemma_byte_len_concat(a: Seq<char>, b: Seq<char>)
    ensures
        byte_len(a + b) == byte_len(a) + byte_len(b),
    decreases a.len(),
{
    if a.len() > 0 {
        assert((a + b).drop_first() =~= a.drop_first() + b);
        lemma_byte_len_concat(a.drop_first(), b);
    } else {
        assert(a + b =~= b);
    }
}

pub proof fn lemma_byte_len_single(x: char)
    ensures
        byte_len(seq![x]) == utf8_width(x),
{
    reveal_with_fuel(byte_len, 2);
    assert(seq![x].drop_first() =~= Seq::<char>::empty());
}

pub proof fn lemma_len_le_byte_len(s: Seq<char>)
    ensures
        s.len() <= byte_len(s),
    decreases s.len(),
{
    if s.len() > 0 {
        lemma_len_le_byte_len(s.drop_first());
    }
}

pub proof fn lemma_fit(s: Seq<char>, n: int)
    requires
        n >= 0,
    ensures
        fit(s, n) <= s.len(),
        byte_len(s.take(fit(s, n) as int)) <= n,
    decreases s.len(),
{
    if s.len() == 0 || utf8_width(s[0]) > n {
        assert(s.take(0) =~= Seq::<char>::empty());
    } else {
        let w = utf8_width(s[0]);
        lemma_fit(s.drop_first(), n - w);
        let k = fit(s, n) as int;
        assert(s.take(k) =~= seq![s[0]] + s.drop_first().take(k - 1));
        lemma_byte_len_concat(seq![s[0]], s.drop_first().take(k - 1));
        lemma_byte_len_single(s[0]);
    }
}

pub proof fn lemma_strip_dashes(s: Seq<char>)
    ensures
        byte_len(strip_dashes(s)) <= byte_len(s),
        strip_dashes(s).len() <= s.len(),
    decreases s.len(),
{
    if s.len() > 0 && s.last() == '-' {
        lemma_strip_dashes(s.drop_last());
        assert(s =~= s.drop_last() + seq![s.last()]);
        lemma_byte_len_concat(s.drop_last(), seq![s.last()]);
    }
}

pub proof fn lemma_free_download_bytes()
    ensures
        byte_len(free_download()) == 13,
        byte_len(seq!['-']) == 1,
{
    reveal_with_fuel(byte_len, 14);
    assert(seq!['-'].drop_first() =~= Seq::<char>::empty());
    let f = free_download();
    assert(f.drop_first() =~= seq!['r', 'e', 'e', '-', 'd', 'o', 'w', 'n', 'l', 'o', 'a', 'd']);
    assert(f.drop_first().drop_first() =~= seq!['e', 'e', '-', 'd', 'o', 'w', 'n', 'l', 'o', 'a', 'd']);
    assert(f.drop_first().drop_first().drop_first() =~= seq!['e', '-', 'd', 'o', 'w', 'n', 'l', 'o', 'a', 'd']);
    assert(f.drop_first().drop_first().drop_first().drop_first() =~= seq!['-', 'd', 'o', 'w', 'n', 'l', 'o', 'a', 'd']);
    assert(f.skip(5) =~= seq!['d', 'o', 'w', 'n', 'l', 'o', 'a', 'd']);
    assert(f.drop_first().drop_first().drop_first().drop_first().drop_first() =~= f.skip(5));
    assert(f.skip(6) =~= seq!['o', 'w', 'n', 'l', 'o', 'a', 'd']);
    assert(f.skip(5).drop_first() =~= f.skip(6));
    assert(f.skip(7) =~= seq!['w', 'n', 'l', 'o', 'a', 'd']);
    assert(f.skip(6).drop_first() =~= f.skip(7));
    assert(f.skip(8) =~= seq!['n', 'l', 'o', 'a', 'd']);
    assert(f.skip(7).drop_first() =~= f.skip(8));
    assert(f.skip(9) =~= seq!['l', 'o', 'a', 'd']);
    assert(f.skip(8).drop_first() =~= f.skip(9));
    assert(f.skip(10) =~= seq!['o', 'a', 'd']);
    assert(f.skip(9).drop_first() =~= f.skip(10));
    assert(f.skip(11) =~= seq!['a', 'd']);
    assert(f.skip(10).drop_first() =~= f.skip(11));
    assert(f.skip(12) =~= seq!['d']);
    assert(f.skip(11).drop_first() =~= f.skip(12));
    assert(f.skip(12).drop_first() =~= Seq::<char>::empty());
}

proof fn lemma_take_byte_len(s: Seq<char>, k: int)
    requires
        0 <= k <= s.len(),
    ensures
        byte_len(s.take(k)) <= byte_len(s),
{
    assert(s =~= s.take(k) + s.skip(k));
    lemma_byte_len_concat(s.take(k), s.skip(k));
}

/// Removing the keyword leaves no keyword at the end and adds no bytes.
pub proof fn lemma_without_keyword(s: Seq<char>)
    ensures
        byte_len(without_keyword(s)) <= byte_len(s),
        !ends_with(without_keyword(s), keyword()),
        without_keyword(s) != free_download(),
    decreases s.len(),
{
    let d = strip_dashes(s);
    lemma_strip_dashes(s);
    if d == free_download() {
        assert(Seq::<char>::empty().len() != free_download().len());
    } else if ends_with(d, keyword()) {
        lemma_take_byte_len(d, d.len() - 14);
        lemma_without_keyword(d.take(d.len() - 14));
    }
}

/// Every slug is its core followed by "-free-download" once: the core does
/// not itself end with the keyword. It is non-empty and fits the 100-byte
/// (hence 100-character) slug field.
pub proof fn lemma_slug_shape(t: Seq<char>)
    ensures
        slug_spec(t) == slug_core(t) + keyword(),
        !ends_with(slug_core(t), keyword()),
        slug_core(t) != free_download(),
        ends_with(slug_spec(t), keyword()),
        byte_len(slug_spec(t)) <= 100,
        0 < slug_spec(t).len() <= 100,
{
    let x = without_keyword(slug_base(t));
    lemma_without_keyword(slug_base(t));
    let y = cut(x);
    if byte_len(x) > base_budget() {
        lemma_fit(x, base_budget());
    }
    assert(byte_len(y) <= base_budget());
    let c = without_keyword(y);
    lemma_without_keyword(y);
    let core = slug_core(t);
    if c.len() == 0 {
        reveal_with_fuel(byte_len, 5);
        assert(game_word().drop_first() =~= seq!['a', 'm', 'e']);
        assert(game_word().drop_first().drop_first() =~= seq!['m', 'e']);
        assert(game_word().drop_first().drop_first().drop_first() =~= seq!['e']);
        assert(seq!['e'].drop_first() =~= Seq::<char>::empty());
        assert(byte_len(game_word()) == 4);
        assert(game_word().len() != free_download().len());
    }
    assert(byte_len(core) <= base_budget());
    lemma_free_download_bytes();
    lemma_byte_len_concat(seq!['-'], free_download());
    assert(byte_len(keyword()) == 14);
    let r = core + keyword();
    lemma_byte_len_concat(core, keyword());
    assert(r.skip(r.len() - 14) =~= keyword());
    lemma_len_le_byte_len(r);
}

// ---------------------------------------------------------------------------
// Exec
// ---------------------------------------------------------------------------

fn is_reserved_char(c: char) -> (r: bool)
    ensures
        r == is_reserved(c),
{
    c == '/' || c == '\\' || c == ':' || c == '*' || c == '?' || c == '"' || c == '<' || c == '>'
        || c == '|' || c == '#' || c == '[' || c == ']'
}

fn is_word_sep_char(c: char) -> (r: bool)
    ensures
        r == is_word_sep(c),
{
    is_whitespace(c) || c == '-' || c == '_'
}

fn normalized_chars(title: &str) -> (m: Vec<char>)
    ensures
        m@ == normalize_for_slug(title@),
{
    let t = trim_str(title);
    let lower = to_lowercase(t.as_str());
    let v = chars_of(lower.as_str());
    let mut m: Vec<char> = Vec::new();
    let mut i: usize = 0;
    while i < v.len()
        invariant
            i <= v.len(),
            m.len() == i,
            forall|k: int| 0 <= k < i ==> #[trigger] m@[k] == dash_reserved(v@[k]),
        decreases v.len() - i,
    {
        let c = v[i];
        if is_reserved_char(c) {
            m.push('-');
        } else {
            m.push(c);
        }
        i += 1;
    }
    assert(m@ =~= v@.map_values(|c: char| dash_reserved(c)));
    m
}

/// Views of a vector of words.
pub open spec fn words_view(ws: Seq<Vec<char>>) -> Seq<Seq<char>> {
    ws.map_values(|w: Vec<char>| w@)
}

fn split_fields(m: &Vec<char>) -> (ws: Vec<Vec<char>>)
    ensures
        words_view(ws@) == fields(m@),
{
    let mut ws: Vec<Vec<char>> = Vec::new();
    let mut cur: Vec<char> = Vec::new();
    let mut in_word = false;
    let mut i: usize = 0;
    while i < m.len()
        invariant
            i <= m.len(),
            in_word == (i > 0 && !is_word_sep(m@[i - 1])),
            fields(m@.take(i as int)) == if in_word {
                words_view(ws@).push(cur@)
            } else {
                words_view(ws@)
            },
        decreases m.len() - i,
    {
        let c = m[i];
        let ghost before = words_view(ws@);
        assert(m@.take(i + 1).drop_last() =~= m@.take(i as int));
        if is_word_sep_char(c) {
            if in_word {
                ws.push(cur);
                cur = Vec::new();
                assert(words_view(ws@) =~= before.push(words_view(ws@).last()));
            }
            in_word = false;
        } else {
            if in_word {
                cur.push(c);
                assert(before.push(cur@) =~= before.push(old_cur_push(before, cur@)));
            } else {
                cur = Vec::new();
                cur.push(c);
                in_word = true;
            }
            assert(fields(m@.take(i + 1)) =~= words_view(ws@).push(cur@));
        }
        i += 1;
    }
    if in_word {
        ws.push(cur);
        assert(words_view(ws@) =~= fields(m@.take(i as int)));
    }
    assert(m@.take(m.len() as int) =~= m@);
    ws
}

spec fn old_cur_push(p: Seq<Seq<char>>, c: Seq<char>) -> Seq<char> {
    c
}

fn keep_alnum_chars(w: &Vec<char>) -> (out: Vec<char>)
    ensures
        out@ == keep_alnum(w@),
{
    let mut out: Vec<char> = Vec::new();
    let mut i: usize = 0;
    while i < w.len()
        invariant
            i <= w.len(),
            out@ == keep_alnum(w@.take(i as int)),
        decreases w.len() - i,
    {
        assert(w@.take(i + 1).drop_last() =~= w@.take(i as int));
        if is_alphanumeric(w[i]) {
            out.push(w[i]);
        }
        i += 1;
    }
    assert(w@.take(w.len() as int) =~= w@);
    out
}

fn join_words(ws: &Vec<Vec<char>>) -> (out: Vec<char>)
    ensures
        out@ == join_slug_words(words_view(ws@)),
{
    let mut out: Vec<char> = Vec::new();
    let mut j: usize = 0;
    while j < ws.len()
        invariant
            j <= ws.len(),
            out@ == join_slug_words(words_view(ws@).take(j as int)),
        decreases ws.len() - j,
    {
        let ghost wv = words_view(ws@).take(j + 1);
        assert(wv.drop_last() =~= words_view(ws@).take(j as int));
        assert(wv.last() == ws@[j as int]@);
        if j > 0 {
            out.push('-');
        }
        let cl = keep_alnum_chars(&ws[j]);
        if cl.len() > 0 {
            let s = string_of(&cl);
            let snake = to_snake_case(s.as_str());
            let sv = chars_of(snake.as_str());
            let ghost before = out@;
            let mut k: usize = 0;
            while k < sv.len()
                invariant
                    k <= sv.len(),
                    out@ == before + sv@.take(k as int),
                decreases sv.len() - k,
            {
                out.push(sv[k]);
                assert(sv@.take(k + 1) =~= sv@.take(k as int).push(sv@[k as int]));
                k += 1;
            }
            assert(sv@.take(sv.len() as int) =~= sv@);
        }
        j += 1;
    }
    assert(words_view(ws@).take(ws.len() as int) =~= words_view(ws@));
    out
}

fn base_chars(title: &str) -> (b: Vec<char>)
    ensures
        b@ == slug_base(title@),
{
    let m = normalized_chars(title);
    let ws = split_fields(&m);
    let b = join_words(&ws);
    if b.len() == 0 {
        let g = vec!['g', 'a', 'm', 'e'];
        assert(g@ =~= game_word());
        g
    } else {
        b
    }
}

pub fn utf8_width_of(c: char) -> (w: usize)
    ensures
        w == utf8_width(c),
{
    let v = c as u32;
    if v < 0x80 {
        1
    } else if v < 0x800 {
        2
    } else if v < 0x10000 {
        3
    } else {
        4
    }
}

/// `(fit(b, n), byte_len(b.take(fit)), whether all of b fits)`.
fn fit_prefix(b: &Vec<char>, n: usize) -> (r: (usize, usize))
    ensures
        r.0 == fit(b@, n as int),
        r.1 == byte_len(b@.take(r.0 as int)),
        r.1 <= n,
        r.0 <= b.len(),
{
    let mut i: usize = 0;
    let mut used: usize = 0;
    proof {
        assert(b@.skip(0) =~= b@);
        assert(b@.take(0) =~= Seq::<char>::empty());
    }
    while i < b.len() && utf8_width_of(b[i]) <= n - used
        invariant
            i <= b.len(),
            used <= n,
            used == byte_len(b@.take(i as int)),
            fit(b@, n as int) == i + fit(b@.skip(i as int), n - used),
        decreases b.len() - i,
    {
        let w = utf8_width_of(b[i]);
        proof {
            assert(b@.skip(i as int).drop_first() =~= b@.skip(i + 1));
            assert(b@.take(i + 1) =~= b@.take(i as int) + seq![b@[i as int]]);
            lemma_byte_len_concat(b@.take(i as int), seq![b@[i as int]]);
            lemma_byte_len_single(b@[i as int]);
        }
        used = used + w;
        i = i + 1;
    }
    (i, used)
}

/// Whether `b` takes more than `n` bytes in UTF-8.
pub fn bytes_exceed(b: &Vec<char>, n: usize) -> (r: bool)
    ensures
        r == (byte_len(b@) > n),
{
    let (k, _) = fit_prefix(b, n);
    if k == b.len() {
        assert(b@.take(k as int) =~= b@);
        false
    } else {
        // the next character does not fit, so the whole string is longer
        proof {
            lemma_fit_rest(b@, n as int);
        }
        true
    }
}

fn exceeds_budget(b: &Vec<char>) -> (r: bool)
    ensures
        r == (byte_len(b@) > base_budget()),
{
    bytes_exceed(b, 86)
}

proof fn lemma_fit_rest(s: Seq<char>, n: int)
    requires
        n >= 0,
        fit(s, n) < s.len(),
    ensures
        byte_len(s) > n,
    decreases s.len(),
{
    if utf8_width(s[0]) > n {
        lemma_byte_len_nonneg(s.drop_first());
    } else {
        lemma_fit_rest(s.drop_first(), n - utf8_width(s[0]));
    }
}

proof fn lemma_byte_len_nonneg(s: Seq<char>)
    ensures
        byte_len(s) >= 0,
{
}

fn strip_trailing_dashes(v: &mut Vec<char>)
    ensures
        final(v)@ == strip_dashes(old(v)@),
    decreases old(v).len(),
{
    if v.len() > 0 && v[v.len() - 1] == '-' {
        let ghost before = v@;
        v.pop();
        assert(v@ =~= before.drop_last());
        strip_trailing_dashes(v);
    }
}

fn free_download_chars() -> (r: Vec<char>)
    ensures
        r@ == free_download(),
{
    let r = vec!['f', 'r', 'e', 'e', '-', 'd', 'o', 'w', 'n', 'l', 'o', 'a', 'd'];
    assert(r@ =~= free_download());
    r
}

fn keyword_chars() -> (r: Vec<char>)
    ensures
        r@ == keyword(),
{
    let r = vec!['-', 'f', 'r', 'e', 'e', '-', 'd', 'o', 'w', 'n', 'l', 'o', 'a', 'd'];
    assert(r@ =~= keyword());
    r
}

fn without_keyword_vec(v: Vec<char>) -> (r: Vec<char>)
    ensures
        r@ == without_keyword(v@),
    decreases v.len(),
{
    let ghost v0 = v@;
    let mut d = v;
    strip_trailing_dashes(&mut d);
    proof {
        lemma_strip_dashes(v0);
    }
    if seq_equal(&d, &free_download_chars()) {
        return Vec::new();
    }
    if ends_with_chars(&d, &keyword_chars()) {
        let n = d.len() - 14;
        d.truncate(n);
        assert(d@ =~= strip_dashes(v0).take(n as int));
        return without_keyword_vec(d);
    }
    d
}

/// Derives the listing slug from a title: trimmed, lower-cased words joined
/// by '-', without any trailing keyword, cut to 86 bytes at a character
/// boundary, then "-free-download" once; at most 100 bytes.
pub fn slug_from_title(title: &str) -> (slug: String)
    ensures
        slug@ == slug_spec(title@),
        ends_with(slug@, keyword()),
        0 < slug@.len() <= 100,
        byte_len(slug@) <= 100,
{
    let b = base_chars(title);
    let x = without_keyword_vec(b);
    let ghost xv = x@;
    let mut y = x;
    if exceeds_budget(&y) {
        let (k, _) = fit_prefix(&y, 86);
        y.truncate(k);
        assert(y@ =~= xv.take(k as int));
    }
    assert(y@ == cut(xv));
    let mut c = without_keyword_vec(y);
    if c.len() == 0 {
        c = vec!['g', 'a', 'm', 'e'];
        assert(c@ =~= game_word());
    }
    assert(c@ == slug_core(title@));
    push_vec(&mut c, &keyword_chars());
    proof {
        lemma_slug_shape(title@);
    }
    string_of(&c)
}


proof fn lemma_join_grows(ws: Seq<Seq<char>>)
    requires
        ws.len() > 0,
    ensures
        join_slug_words(ws.drop_last()).len() <= join_slug_words(ws).len(),
        join_slug_words(ws).take(join_slug_words(ws.drop_last()).len() as int) =~= join_slug_words(
            ws.drop_last(),
        ),
{
}

/// Where the snake case of a word with alphanumeric characters stands in
/// the join of the words.
proof fn lemma_join_has_word(ws: Seq<Seq<char>>, i: int) -> (pos: int)
    requires
        0 <= i < ws.len(),
        keep_alnum(ws[i]).len() > 0,
    ensures
        crate::text::occurs_at(join_slug_words(ws), snake_of(keep_alnum(ws[i])), pos),
        i == ws.len() - 1 ==> pos + snake_of(keep_alnum(ws[i])).len() == join_slug_words(ws).len(),
    decreases ws.len(),
{
    let j = join_slug_words(ws);
    let init = ws.drop_last();
    let pj = join_slug_words(init);
    let p2 = if ws.len() > 1 {
        pj.push('-')
    } else {
        pj
    };
    let w = snake_of(keep_alnum(ws[i]));
    if i == ws.len() - 1 {
        assert(j == p2 + w);
        assert(j.subrange(p2.len() as int, (p2.len() + w.len()) as int) =~= w);
        p2.len() as int
    } else {
        assert(init[i] == ws[i]);
        let pos = lemma_join_has_word(init, i);
        lemma_join_grows(ws);
        let jt = j.take(pj.len() as int);
        assert(jt =~= pj);
        assert(j.subrange(pos, pos + w.len()) =~= jt.subrange(pos, pos + w.len()));
        pos
    }
}

/// Every word of a title is in its slug: each word of the normalized title
/// that has alphanumeric characters contributes their snake case to the
/// slug base, and the last such word ends it.
pub proof fn lemma_every_word_in_slug_base(t: Seq<char>)
    ensures
        forall|i: int|
            0 <= i < fields(normalize_for_slug(t)).len() && keep_alnum(
                #[trigger] fields(normalize_for_slug(t))[i],
            ).len() > 0 ==> crate::text::contains(
                slug_base(t),
                snake_of(keep_alnum(fields(normalize_for_slug(t))[i])),
            ),
        fields(normalize_for_slug(t)).len() > 0 && keep_alnum(fields(normalize_for_slug(t)).last()).len()
            > 0 ==> ends_with(slug_base(t), snake_of(keep_alnum(fields(normalize_for_slug(t)).last()))),
{
    let ws = fields(normalize_for_slug(t));
    let j = join_slug_words(ws);
    assert forall|i: int| 0 <= i < ws.len() && keep_alnum(#[trigger] ws[i]).len() > 0 implies crate::text::contains(
        slug_base(t),
        snake_of(keep_alnum(ws[i])),
    ) by {
        let w = snake_of(keep_alnum(ws[i]));
        let pos = lemma_join_has_word(ws, i);
        if j.len() == 0 {
            assert(w.len() == 0);
            assert(game_word().subrange(0, 0) =~= w);
            crate::text::lemma_occurs_contains(slug_base(t), w, 0);
        } else {
            crate::text::lemma_occurs_contains(slug_base(t), w, pos);
        }
    }
    if ws.len() > 0 && keep_alnum(ws.last()).len() > 0 {
        let w = snake_of(keep_alnum(ws.last()));
        let pos = lemma_join_has_word(ws, ws.len() - 1);
        if j.len() == 0 {
            assert(w.len() == 0);
            assert(game_word().skip(4) =~= w);
        } else {
            assert(j.skip(j.len() - w.len()) =~= j.subrange(pos, pos + w.len()));
        }
    }
}

/// A title whose slug base fits the byte budget and carries no keyword of
/// its own is slugged as that base followed by "-free-download": nothing of
/// the base is lost.
pub proof fn lemma_slug_keeps_fitting_base(t: Seq<char>)
    requires
        byte_len(slug_base(t)) <= base_budget(),
        without_keyword(slug_base(t)) == slug_base(t),
    ensures
        slug_spec(t) == slug_base(t) + keyword(),
{
    let b = slug_base(t);
    assert(cut(b) == b);
    assert(b.len() > 0);
}

proof fn lemma_fields_nonempty(s: Seq<char>)
    requires
        s.len() > 0,
        !is_word_sep(s.last()),
    ensures
        fields(s).len() > 0,
    decreases s.len(),
{
    if s.len() >= 2 && !is_word_sep(s[s.len() - 2]) {
        assert(s.drop_last().last() == s[s.len() - 2]);
        lemma_fields_nonempty(s.drop_last());
    }
}

proof fn lemma_fields_concat(p: Seq<char>, s: Seq<char>)
    requires
        p.len() > 0,
        is_word_sep(p.last()),
    ensures
        fields(p + s) == fields(p) + fields(s),
    decreases s.len(),
{
    if s.len() == 0 {
        assert(p + s =~= p);
        assert(fields(p) + fields(s) =~= fields(p));
    } else {
        let q = s.drop_last();
        let c = s.last();
        lemma_fields_concat(p, q);
        let ps = p + s;
        assert(ps.drop_last() =~= p + q);
        assert(ps.last() == c);
        let a = fields(p);
        let b = fields(q);
        if is_word_sep(c) {
        } else if ps.len() >= 2 && !is_word_sep(ps[ps.len() - 2]) {
            if q.len() == 0 {
                assert(ps[ps.len() - 2] == p.last());
            } else {
                assert(ps[ps.len() - 2] == q.last());
                assert(s[s.len() - 2] == q.last());
                assert(q.last() == q[q.len() - 1]);
                lemma_fields_nonempty(q);
                assert((a + b).last() == b.last());
                assert((a + b).update((a + b).len() - 1, (a + b).last().push(c)) =~= a + b.update(
                    b.len() - 1,
                    b.last().push(c),
                ));
            }
        } else {
            if q.len() > 0 {
                assert(ps[ps.len() - 2] == q.last());
                assert(s[s.len() - 2] == q.last());
            }
            assert((a + b).push(seq![c]) =~= a + b.push(seq![c]));
        }
    }
}

/// Words are split at every separator and none is lost: text joined by a
/// separator (a space, '-' or '_') has the words of the first part followed
/// by those of the second.
pub proof fn lemma_fields_split(s1: Seq<char>, sep: char, s2: Seq<char>)
    requires
        is_word_sep(sep),
    ensures
        fields(s1 + seq![sep] + s2) == fields(s1) + fields(s2),
{
    let p = s1.push(sep);
    assert(s1 + seq![sep] + s2 =~= p + s2);
    assert(p.drop_last() =~= s1);
    assert(p.last() == sep);
    assert(fields(p) == fields(s1));
    lemma_fields_concat(p, s2);
}

} // verus!
