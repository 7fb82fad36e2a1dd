//! Turning a matched game into a complete listing: Steam data, page
//! details, images, requirements, version, download links and copy.
use vstd::prelude::*;
use crate::json::{
    as_array, as_bool, as_object, as_str, as_u64, bool_of, deref_opt, get, get_in, get_opt, get_spec,
    items_of, member, member_spec, members_of, parsed_json, str_of, u64_of, Json,
};
use crate::models::{DownloadCandidate, DownloadLink, EnrichedGame, SourcePageDetails};
use crate::text::{
    char_to_uppercase, chars_of, collapse_ws, contains, contains_chars, find, lower_of,
    lower_vec, push_str_vec, push_vec, starts_with, starts_with_chars, string_of, trim,
    trimmed_vec, upper_of, vec_of_range, vecs_view,
};

verus! {

broadcast use vstd::string::group_string_axioms;

// ---------------------------------------------------------------------------
// HTML to text
// ---------------------------------------------------------------------------

/// The entities `strip_html` decodes, in the order they are tried.
pub open spec fn html_entities() -> Seq<(Seq<char>, char)> {
    seq![
        (seq!['a', 'm', 'p', ';'], '&'),
        (seq!['l', 't', ';'], '<'),
        (seq!['g', 't', ';'], '>'),
        (seq!['q', 'u', 'o', 't', ';'], '"'),
        (seq!['a', 'p', 'o', 's', ';'], '\''),
        (seq!['n', 'b', 's', 'p', ';'], ' '),
    ]
}

/// The first entity name (after '&') that `s` starts with, from entry `k`.
pub open spec fn html_entity_at(s: Seq<char>, k: int) -> Option<(Seq<char>, char)>
    decreases 6 - k,
{
    if k < 0 || k >= 6 {
        None
    } else if starts_with(s, html_entities()[k].0) {
        Some(html_entities()[k])
    } else {
        html_entity_at(s, k + 1)
    }
}

pub proof fn lemma_html_entity_at(s: Seq<char>, k: int)
    ensures
        html_entity_at(s, k) matches Some(e) ==> e.0.len() <= s.len(),
    decreases 6 - k,
{
    if 0 <= k < 6 && !starts_with(s, html_entities()[k].0) {
        lemma_html_entity_at(s, k + 1);
    }
}

/// Characters outside tags, with the entities decoded; a '&' that starts
/// no known entity stays.
pub open spec fn strip_scan(s: Seq<char>, in_tag: bool) -> Seq<char>
    decreases s.len(),
{
    if s.len() == 0 {
        Seq::empty()
    } else {
        let c = s[0];
        let rest = s.drop_first();
        if c == '<' {
            strip_scan(rest, true)
        } else if c == '>' {
            strip_scan(rest, false)
        } else if c == '&' && !in_tag {
            match html_entity_at(rest, 0) {
                Some(e) => {
                    proof {
                        lemma_html_entity_at(rest, 0);
                    }
                    seq![e.1] + strip_scan(rest.skip(e.0.len() as int), in_tag)
                },
                None => seq!['&'] + strip_scan(rest, in_tag),
            }
        } else if !in_tag {
            seq![c] + strip_scan(rest, in_tag)
        } else {
            strip_scan(rest, in_tag)
        }
    }
}

/// HTML reduced to plain text: tags dropped, entities decoded, whitespace
/// collapsed to single spaces.
pub open spec fn strip_html_spec(s: Seq<char>) -> Seq<char> {
    collapse_ws(strip_scan(s, false))
}

fn html_entity_names() -> (t: Vec<(Vec<char>, char)>)
    ensures
        t.len() == 6,
        forall|k: int| 0 <= k < 6 ==> (#[trigger] t@[k]).0@ == html_entities()[k].0 && t@[k].1
            == html_entities()[k].1,
{
    let t = vec![
        (vec!['a', 'm', 'p', ';'], '&'),
        (vec!['l', 't', ';'], '<'),
        (vec!['g', 't', ';'], '>'),
        (vec!['q', 'u', 'o', 't', ';'], '"'),
        (vec!['a', 'p', 'o', 's', ';'], '\''),
        (vec!['n', 'b', 's', 'p', ';'], ' '),
    ];
    proof {
        assert(t@[0].0@ =~= html_entities()[0].0);
        assert(t@[1].0@ =~= html_entities()[1].0);
        assert(t@[2].0@ =~= html_entities()[2].0);
        assert(t@[3].0@ =~= html_entities()[3].0);
        assert(t@[4].0@ =~= html_entities()[4].0);
        assert(t@[5].0@ =~= html_entities()[5].0);
    }
    t
}

fn strip_scan_vec(v: &Vec<char>) -> (out: Vec<char>)
    ensures
        out@ == strip_scan(v@, false),
{
    let table = html_entity_names();
    let mut out: Vec<char> = Vec::new();
    let mut in_tag = false;
    let mut i: usize = 0;
    assert(v@.skip(0) =~= v@);
    while i < v.len()
        invariant
            i <= v.len(),
            table.len() == 6,
            forall|k: int| 0 <= k < 6 ==> (#[trigger] table@[k]).0@ == html_entities()[k].0
                && table@[k].1 == html_entities()[k].1,
            strip_scan(v@, false) == out@ + strip_scan(v@.skip(i as int), in_tag),
        decreases v.len() - i,
    {
        let ghost s = v@.skip(i as int);
        let c = v[i];
        assert(s[0] == c);
        assert(s.drop_first() =~= v@.skip(i + 1));
        if c == '<' {
            in_tag = true;
            i += 1;
        } else if c == '>' {
            in_tag = false;
            i += 1;
        } else if c == '&' && !in_tag {
            let rest = vec_of_range(v, i + 1, v.len());
            assert(rest@ =~= s.drop_first());
            let mut k: usize = 0;
            let mut hit: Option<usize> = None;
            while k < 6
                invariant
                    k <= 6,
                    table.len() == 6,
                    forall|x: int| 0 <= x < 6 ==> (#[trigger] table@[x]).0@ == html_entities()[x].0
                        && table@[x].1 == html_entities()[x].1,
                    hit is None ==> html_entity_at(rest@, 0) == html_entity_at(rest@, k as int),
                    hit matches Some(x) ==> x < 6 && html_entity_at(rest@, 0) == Some(
                        html_entities()[x as int],
                    ),
                decreases 6 - k,
            {
                if hit.is_none() && starts_with_chars(&rest, &table[k].0) {
                    hit = Some(k);
                }
                k += 1;
            }
            match hit {
                Some(x) => {
                    let len = table[x].0.len();
                    proof {
                        lemma_html_entity_at(rest@, 0);
                    }
                    let ghost before = out@;
                    out.push(table[x].1);
                    assert(rest@.skip(len as int) =~= v@.skip(i + 1 + len));
                    assert(before + (seq![table@[x as int].1] + strip_scan(rest@.skip(len as int), in_tag))
                        =~= out@ + strip_scan(v@.skip(i + 1 + len), in_tag));
                    i = i + 1 + len;
                },
                None => {
                    let ghost before = out@;
                    out.push('&');
                    assert(before + (seq!['&'] + strip_scan(rest@, in_tag)) =~= out@ + strip_scan(
                        v@.skip(i + 1),
                        in_tag,
                    ));
                    i += 1;
                },
            }
        } else if !in_tag {
            let ghost before = out@;
            out.push(c);
            assert(before + (seq![c] + strip_scan(s.drop_first(), in_tag)) =~= out@ + strip_scan(
                v@.skip(i + 1),
                in_tag,
            ));
            i += 1;
        } else {
            i += 1;
        }
    }
    assert(v@.skip(v.len() as int) =~= Seq::<char>::empty());
    assert(out@ + Seq::<char>::empty() =~= out@);
    out
}

fn strip_html_vec(v: &Vec<char>) -> (out: Vec<char>)
    ensures
        out@ == strip_html_spec(v@),
{
    let s = strip_scan_vec(v);
    let out = crate::text::collapse_ws_range(&s, 0, s.len());
    assert(s@.subrange(0, s@.len() as int) =~= s@);
    out
}

/// HTML reduced to plain text (tags dropped, entities decoded, whitespace
/// collapsed).
pub fn strip_html(html: &str) -> (r: String)
    ensures
        r@ == strip_html_spec(html@),
{
    string_of(&strip_html_vec(&chars_of(html)))
}

/// Length of the entity name `rest` starts with, 0 for none.
pub fn entity_length(rest: &str) -> (n: usize)
    ensures
        n == match html_entity_at(rest@, 0) {
            Some(e) => e.0.len(),
            None => 0,
        },
{
    let v = chars_of(rest);
    let table = html_entity_names();
    let mut k: usize = 0;
    while k < 6
        invariant
            k <= 6,
            table.len() == 6,
            forall|x: int| 0 <= x < 6 ==> (#[trigger] table@[x]).0@ == html_entities()[x].0,
            html_entity_at(v@, 0) == html_entity_at(v@, k as int),
            v@ == rest@,
        decreases 6 - k,
    {
        if starts_with_chars(&v, &table[k].0) {
            assert(html_entity_at(v@, k as int) == Some(html_entities()[k as int]));
            let n = table[k].0.len();
            assert(n == html_entities()[k as int].0.len());
            return n;
        }
        k += 1;
    }
    0
}

// ---------------------------------------------------------------------------
// Small text helpers
// ---------------------------------------------------------------------------

/// The first character upper-cased (`char::to_uppercase`), the rest kept.
pub open spec fn capitalize_spec(w: Seq<char>) -> Seq<char> {
    if w.len() == 0 {
        Seq::empty()
    } else {
        upper_of(w[0]) + w.drop_first()
    }
}

fn capitalize_vec(w: &Vec<char>) -> (r: Vec<char>)
    ensures
        r@ == capitalize_spec(w@),
{
    if w.len() == 0 {
        return Vec::new();
    }
    let up = char_to_uppercase(w[0]);
    let mut r = chars_of(up.as_str());
    let tail = vec_of_range(w, 1, w.len());
    assert(tail@ =~= w@.drop_first());
    push_vec(&mut r, &tail);
    r
}

pub fn capitalize(word: &str) -> (r: String)
    ensures
        r@ == capitalize_spec(word@),
{
    string_of(&capitalize_vec(&chars_of(word)))
}

/// The alt-text title: plain text with its first character upper-cased.
pub fn clean_alt_title(raw: &str) -> (r: String)
    ensures
        r@ == capitalize_spec(strip_html_spec(raw@)),
{
    string_of(&capitalize_vec(&strip_html_vec(&chars_of(raw))))
}

/// Category keywords, most specific use first.
pub open spec fn category_keywords() -> Seq<Seq<char>> {
    seq![
        "action"@,
        "adventure"@,
        "rpg"@,
        "strategy"@,
        "simulation"@,
        "racing"@,
        "sports"@,
        "casual"@,
        "puzzle"@,
        "platformer"@,
        "shooter"@,
    ]
}

/// Some tag mentions `keyword` in lower case.
pub open spec fn tag_mentions(tags: Seq<Seq<char>>, keyword: Seq<char>) -> bool {
    exists|j: int| 0 <= j < tags.len() && contains(lower_of(#[trigger] tags[j]), keyword)
}

/// The first keyword (in keyword order) some tag mentions, capitalized.
pub open spec fn category_from_tags_from(tags: Seq<Seq<char>>, k: int) -> Option<Seq<char>>
    decreases 11 - k,
{
    if k < 0 || k >= 11 {
        None
    } else if tag_mentions(tags, category_keywords()[k]) {
        Some(capitalize_spec(category_keywords()[k]))
    } else {
        category_from_tags_from(tags, k + 1)
    }
}

fn category_keywords_vec() -> (t: Vec<Vec<char>>)
    ensures
        vecs_view(t@) == category_keywords(),
{
    let t = vec![
        chars_of("action"),
        chars_of("adventure"),
        chars_of("rpg"),
        chars_of("strategy"),
        chars_of("simulation"),
        chars_of("racing"),
        chars_of("sports"),
        chars_of("casual"),
        chars_of("puzzle"),
        chars_of("platformer"),
        chars_of("shooter"),
    ];
    assert(vecs_view(t@) =~= category_keywords());
    t
}

/// A category guessed from tags: the first keyword some tag mentions.
pub fn category_from_tags(tags: &Vec<String>) -> (r: Option<String>)
    ensures
        r.deep_view() == category_from_tags_from(tags.deep_view(), 0),
{
    let kws = category_keywords_vec();
    assert(kws@.len() == vecs_view(kws@).len());
    let mut lowers: Vec<Vec<char>> = Vec::new();
    let mut j: usize = 0;
    while j < tags.len()
        invariant
            j <= tags.len(),
            lowers.len() == j,
            forall|x: int| 0 <= x < j ==> (#[trigger] lowers@[x])@ == lower_of(tags.deep_view()[x]),
        decreases tags.len() - j,
    {
        let l = lower_vec(&chars_of(tags[j].as_str()));
        assert(tags.deep_view()[j as int] == tags@[j as int]@);
        lowers.push(l);
        j += 1;
    }
    let mut k: usize = 0;
    while k < 11
        invariant
            k <= 11,
            kws.len() == 11,
            vecs_view(kws@) == category_keywords(),
            lowers.len() == tags.len(),
            forall|x: int| 0 <= x < tags.len() ==> (#[trigger] lowers@[x])@ == lower_of(tags.deep_view()[x]),
            category_from_tags_from(tags.deep_view(), 0) == category_from_tags_from(tags.deep_view(), k as int),
        decreases 11 - k,
    {
        assert(kws@[k as int]@ == category_keywords()[k as int]);
        let mut j: usize = 0;
        let mut found = false;
        while j < lowers.len()
            invariant
                j <= lowers.len(),
                lowers.len() == tags.len(),
                k < 11,
                kws.len() == 11,
                kws@[k as int]@ == category_keywords()[k as int],
                forall|x: int| 0 <= x < tags.len() ==> (#[trigger] lowers@[x])@ == lower_of(tags.deep_view()[x]),
                found == exists|x: int| 0 <= x < j && contains(lower_of(#[trigger] tags.deep_view()[x]), category_keywords()[k as int]),
            decreases lowers.len() - j,
        {
            if contains_chars(&lowers[j], &kws[k]) {
                assert(contains(lower_of(tags.deep_view()[j as int]), category_keywords()[k as int]));
                found = true;
            }
            j += 1;
        }
        if found {
            return Some(string_of(&capitalize_vec(&kws[k])));
        }
        k += 1;
    }
    None
}

/// The requirements shown when neither Steam nor the page has any.
pub open spec fn default_minimum_text() -> Seq<char> {
    "OS: Windows 10 64-bit\nMemory: 4 GB RAM\nStorage: 10 GB available space"@
}

pub fn default_minimum() -> (r: Option<String>)
    ensures
        r.deep_view() == Some(default_minimum_text()),
{
    Some(String::from_str("OS: Windows 10 64-bit\nMemory: 4 GB RAM\nStorage: 10 GB available space"))
}

/// Neutral, source-agnostic license wording.
pub open spec fn license_text() -> Seq<char> {
    "Full PC game release, free to download and play; download verified working before listing"@
}

pub fn license_type_for(_source: &crate::models::SourceLabel) -> (r: String)
    ensures
        r@ == license_text(),
{
    String::from_str(
        "Full PC game release, free to download and play; download verified working before listing",
    )
}

} // verus!

verus! {

// ---------------------------------------------------------------------------
// Listing title and version
// ---------------------------------------------------------------------------

/// The game name for the listing title: plain text, single spaces, "Game"
/// when nothing is left.
pub open spec fn listing_base(raw: Seq<char>) -> Seq<char> {
    let b = collapse_ws(strip_html_spec(raw));
    if b.len() == 0 {
        "Game"@
    } else {
        b
    }
}

/// The listing title: the game name plus " Free Download" unless it already
/// ends with it (compared in lower case); past 120 characters the name is
/// cut to its first 106 characters (end-trimmed) before the keyword.
pub open spec fn listing_title_spec(raw: Seq<char>) -> Seq<char> {
    let base = listing_base(raw);
    let kw = "Free Download"@;
    let with_keyword = if crate::text::ends_with(lower_of(base), lower_of(kw)) {
        base
    } else {
        base + seq![' '] + kw
    };
    if with_keyword.len() <= 120 {
        with_keyword
    } else {
        crate::text::trim_end(crate::text::take_chars(base, 106)) + seq![' '] + kw
    }
}

pub fn listing_title(raw: &str) -> (r: String)
    ensures
        r@ == listing_title_spec(raw@),
{
    let stripped = strip_html_vec(&chars_of(raw));
    let mut base = crate::text::collapse_ws_range(&stripped, 0, stripped.len());
    assert(stripped@.subrange(0, stripped@.len() as int) =~= stripped@);
    if base.len() == 0 {
        base = chars_of("Game");
    }
    let kw = chars_of("Free Download");
    let with_keyword = if crate::text::ends_with_chars(&lower_vec(&base), &lower_vec(&kw)) {
        vec_of_range(&base, 0, base.len())
    } else {
        let mut w = vec_of_range(&base, 0, base.len());
        w.push(' ');
        push_vec(&mut w, &kw);
        w
    };
    assert(base@.subrange(0, base@.len() as int) =~= base@);
    if with_keyword.len() <= 120 {
        return string_of(&with_keyword);
    }
    let taken = crate::text::take_chars_vec(&base, 106);
    let n = crate::text::trim_end_len(&taken, taken.len());
    let mut out = vec_of_range(&taken, 0, n);
    assert(taken@.take(taken@.len() as int) =~= taken@);
    assert(out@ =~= taken@.take(n as int));
    out.push(' ');
    push_vec(&mut out, &kw);
    string_of(&out)
}

/// The listing title always ends with the "Free Download" keyword (in lower
/// case when the name already carried it) and is 1 to 120 characters long.
pub proof fn lemma_listing_title_shape(raw: Seq<char>)
    ensures
        1 <= listing_title_spec(raw).len() <= 120,
        crate::text::ends_with(listing_title_spec(raw), "Free Download"@) || crate::text::ends_with(
            lower_of(listing_title_spec(raw)),
            lower_of("Free Download"@),
        ),
{
    let base = listing_base(raw);
    let kw = "Free Download"@;
    reveal_strlit("Free Download");
    reveal_strlit("Game");
    assert(kw.len() == 13);
    assert(base.len() >= 1);
    if crate::text::ends_with(lower_of(base), lower_of(kw)) {
        if base.len() > 120 {
            let t = crate::text::take_chars(base, 106);
            crate::text::lemma_trail_ws(t);
            let r = crate::text::trim_end(t) + seq![' '] + kw;
            assert(r.skip(r.len() - kw.len()) =~= kw);
        }
    } else {
        let w = base + seq![' '] + kw;
        assert(w.skip(w.len() - kw.len()) =~= kw);
        if w.len() > 120 {
            let t = crate::text::take_chars(base, 106);
            crate::text::lemma_trail_ws(t);
            let r = crate::text::trim_end(t) + seq![' '] + kw;
            assert(r.skip(r.len() - kw.len()) =~= kw);
        }
    }
}

/// A version marker cleaned for display: entities decoded, lower case, cut
/// before " | ", narrowed to a "(v...)" group when there is one, a leading
/// 'v' dropped; "Latest" when nothing is left.
pub open spec fn clean_version_spec(raw: Seq<char>) -> Seq<char> {
    let head0 = lower_of(crate::scraper::decode_entities_spec(raw));
    let head1 = match find(head0, " | "@) {
        Some(p) => head0.take(p),
        None => head0,
    };
    let head2 = match find(head1, seq!['(', 'v']) {
        Some(o) => match crate::text::index_of_from(head1, ')', o) {
            Some(c) => head1.subrange(o + 2, c),
            None => head1,
        },
        None => head1,
    };
    let head = trim(crate::text::trim_start_char(trim(head2), 'v'));
    if head.len() == 0 {
        "Latest"@
    } else {
        head
    }
}

fn clean_version_vec(raw: &Vec<char>) -> (r: Vec<char>)
    ensures
        r@ == clean_version_spec(raw@),
{
    let head0 = lower_vec(&crate::scraper::decode_entities_vec(raw));
    let bar = chars_of(" | ");
    proof {
        crate::text::lemma_find_from(head0@, bar@, 0);
    }
    let head1 = match crate::text::find_chars(&head0, &bar) {
        Some(p) => vec_of_range(&head0, 0, p),
        None => head0,
    };
    let open = vec!['(', 'v'];
    proof {
        crate::text::lemma_find_from(head1@, open@, 0);
    }
    let head2 = match crate::text::find_chars(&head1, &open) {
        Some(o) => {
            proof {
                crate::text::lemma_index_of(head1@, ')', o as int);
                assert(head1@.subrange(o as int, o + 2) == open@);
                assert(head1@[o as int] == head1@.subrange(o as int, o + 2)[0]);
                assert(head1@[o + 1] == head1@.subrange(o as int, o + 2)[1]);
            }
            match crate::text::index_of_char(&head1, ')', o) {
                Some(c) => vec_of_range(&head1, o + 2, c),
                None => head1,
            }
        },
        None => head1,
    };
    let t = trimmed_vec(&head2);
    let t2 = crate::text::trim_start_char_vec(&t, 'v');
    let head = trimmed_vec(&t2);
    if head.len() == 0 {
        chars_of("Latest")
    } else {
        head
    }
}

/// Normalize a version marker: "v1.15 | Full Version" -> "1.15";
/// "Full game (v1.0.1)" -> "1.0.1"; "v1.2" -> "1.2".
pub fn clean_version_marker(raw: &str) -> (r: String)
    ensures
        r@ == clean_version_spec(raw@),
{
    string_of(&clean_version_vec(&chars_of(raw)))
}

/// A cleaned version marker is never blank.
pub proof fn lemma_clean_version_nonblank(raw: Seq<char>)
    ensures
        trim(clean_version_spec(raw)).len() > 0,
{
    reveal_strlit("Latest");
    let head0 = lower_of(crate::scraper::decode_entities_spec(raw));
    let head1 = match find(head0, " | "@) {
        Some(p) => head0.take(p),
        None => head0,
    };
    let head2 = match find(head1, seq!['(', 'v']) {
        Some(o) => match crate::text::index_of_from(head1, ')', o) {
            Some(c) => head1.subrange(o + 2, c),
            None => head1,
        },
        None => head1,
    };
    let inner = crate::text::trim_start_char(trim(head2), 'v');
    if trim(inner).len() == 0 {
        crate::text::lemma_nonblank_first("Latest"@);
    } else {
        crate::text::lemma_trim_nonblank(inner);
    }
}

/// The reader-facing version is never blank.
pub proof fn lemma_display_version_nonblank(listing: Option<Seq<char>>, page: Option<Seq<char>>)
    ensures
        trim(display_version_spec(listing, page)).len() > 0,
{
    reveal_strlit("Latest");
    crate::text::lemma_nonblank_first("Latest"@);
    match listing {
        Some(l) if trim(l).len() > 0 => lemma_clean_version_nonblank(trim(l)),
        _ => match page {
            Some(p) if trim(p).len() > 0 => lemma_clean_version_nonblank(trim(p)),
            _ => {},
        },
    }
}

/// The reader-facing version: the listing's marker, else the page's, the
/// first that is not blank once trimmed, cleaned; "Latest" without one.
pub open spec fn display_version_spec(listing: Option<Seq<char>>, page: Option<Seq<char>>) -> Seq<
    char,
> {
    match listing {
        Some(l) if trim(l).len() > 0 => clean_version_spec(trim(l)),
        _ => match page {
            Some(p) if trim(p).len() > 0 => clean_version_spec(trim(p)),
            _ => "Latest"@,
        },
    }
}

pub fn display_version(listing_version: &Option<String>, page: &SourcePageDetails) -> (r: String)
    ensures
        r@ == display_version_spec(listing_version.deep_view(), page.version.deep_view()),
{
    match listing_version {
        Some(l) => {
            let t = trimmed_vec(&chars_of(l.as_str()));
            if t.len() > 0 {
                return string_of(&clean_version_vec(&t));
            }
        },
        None => {},
    }
    match &page.version {
        Some(p) => {
            let t = trimmed_vec(&chars_of(p.as_str()));
            if t.len() > 0 {
                return string_of(&clean_version_vec(&t));
            }
        },
        None => {},
    }
    String::from_str("Latest")
}

} // verus!

verus! {

// ---------------------------------------------------------------------------
// Requirements text
// ---------------------------------------------------------------------------

/// "memory" -> "Memory", "sound card" -> "Sound Card": every word
/// capitalized, single spaces.
pub open spec fn titlecase_spec(w: Seq<char>) -> Seq<char> {
    crate::text::join_sep(
        crate::text::ws_words(w).map_values(|x: Seq<char>| capitalize_spec(x)),
        seq![' '],
    )
}

pub fn titlecase(word: &str) -> (r: String)
    ensures
        r@ == titlecase_spec(word@),
{
    let words = crate::text::split_whitespace_words(&chars_of(word));
    let mut caps: Vec<Vec<char>> = Vec::new();
    let mut i: usize = 0;
    while i < words.len()
        invariant
            i <= words.len(),
            caps.len() == i,
            forall|k: int| 0 <= k < i ==> (#[trigger] caps@[k])@ == capitalize_spec(words@[k]@),
        decreases words.len() - i,
    {
        caps.push(capitalize_vec(&words[i]));
        i += 1;
    }
    assert(vecs_view(caps@) =~= vecs_view(words@).map_values(|x: Seq<char>| capitalize_spec(x)));
    let out = crate::text::join_sep_vec(&caps, " ");
    proof {
        reveal_strlit(" ");
        assert(" "@ =~= seq![' ']);
    }
    string_of(&out)
}

/// The requirement labels that may be glued to the previous value.
pub open spec fn req_labels() -> Seq<Seq<char>> {
    seq![
        "OS *"@,
        "OS"@,
        "Processor"@,
        "Memory"@,
        "Graphics"@,
        "DirectX"@,
        "Storage"@,
        "Sound Card"@,
        "Network"@,
        "Additional Notes"@,
    ]
}

/// Position `pos` starts a line (the text start or just after '\n').
pub open spec fn at_line_start(text: Seq<char>, pos: int) -> bool {
    pos == 0 || text[pos - 1] == '\n'
}

/// The label at `pos` is used as one: a ':' follows, possibly after
/// whitespace and a '*'.
pub open spec fn label_used_at(text: Seq<char>, pos: int, label: Seq<char>) -> bool {
    let after = crate::text::trim_start(text.skip(pos + label.len()));
    starts_with(after, seq![':']) || (starts_with(after, seq!['*']) && starts_with(
        crate::text::trim_start(after.drop_first()),
        seq![':'],
    ))
}

/// The first occurrence of `label` at or after `from` that is used as a
/// label mid-line.
pub open spec fn label_pos_from(text: Seq<char>, label: Seq<char>, from: int) -> Option<int>
    decreases text.len() + 1 - from,
{
    if label.len() == 0 || from < 0 {
        None
    } else {
        match crate::text::find_from(text, label, from) {
            None => None,
            Some(pos) => {
                proof {
                    crate::text::lemma_find_from(text, label, from);
                }
                if !at_line_start(text, pos) && label_used_at(text, pos, label) {
                    Some(pos)
                } else {
                    label_pos_from(text, label, pos + label.len())
                }
            },
        }
    }
}

pub open spec fn min_opt(a: Option<int>, b: Option<int>) -> Option<int> {
    match a {
        Some(x) => match b {
            Some(y) => Some(if x <= y {
                x
            } else {
                y
            }),
            None => Some(x),
        },
        None => b,
    }
}

/// The earliest glued label position over the labels from `k` on.
pub open spec fn label_start_from(text: Seq<char>, k: int) -> Option<int>
    decreases 10 - k,
{
    if k < 0 || k >= 10 {
        None
    } else {
        min_opt(label_pos_from(text, req_labels()[k], 0), label_start_from(text, k + 1))
    }
}

pub proof fn lemma_label_pos_from(text: Seq<char>, label: Seq<char>, from: int)
    ensures
        label_pos_from(text, label, from) matches Some(p) ==> 0 < p < text.len(),
    decreases text.len() + 1 - from,
{
    if label.len() > 0 && from >= 0 {
        crate::text::lemma_find_from(text, label, from);
        match crate::text::find_from(text, label, from) {
            None => {},
            Some(pos) => {
                if !at_line_start(text, pos) && label_used_at(text, pos, label) {
                } else {
                    lemma_label_pos_from(text, label, pos + label.len());
                }
            },
        }
    }
}

pub proof fn lemma_label_start_from(text: Seq<char>, k: int)
    ensures
        label_start_from(text, k) matches Some(p) ==> 0 < p < text.len(),
    decreases 10 - k,
{
    if 0 <= k < 10 {
        lemma_label_pos_from(text, req_labels()[k], 0);
        lemma_label_start_from(text, k + 1);
    }
}

/// The text with a newline inserted before every glued label.
pub open spec fn split_at_labels(rest: Seq<char>) -> Seq<char>
    decreases rest.len(),
{
    match label_start_from(rest, 0) {
        Some(pos) => {
            proof {
                lemma_label_start_from(rest, 0);
            }
            rest.take(pos) + seq!['\n'] + split_at_labels(rest.skip(pos))
        },
        None => rest,
    }
}

/// One requirement line: "label: value" with a short label is re-written
/// as "Label: value", a "Minimum:"/"Recommended:" heading is dropped down
/// to its value; other lines stay.
pub open spec fn req_line(t: Seq<char>) -> Seq<char> {
    match crate::text::index_of_from(t, ':', 0) {
        Some(c) => {
            let label = trim(t.take(c));
            let value = trim(t.skip(c + 1));
            if label.len() > 0 && value.len() > 0 && label.len() <= 20 {
                let lower = lower_of(label);
                if lower == "minimum"@ || lower == "recommended"@ {
                    value
                } else {
                    titlecase_spec(label) + ": "@ + value
                }
            } else {
                t
            }
        },
        None => t,
    }
}

/// The non-empty trimmed lines, each re-written by `req_line`.
pub open spec fn req_lines_of(parts: Seq<Seq<char>>) -> Seq<Seq<char>>
    decreases parts.len(),
{
    if parts.len() == 0 {
        Seq::empty()
    } else {
        let prev = req_lines_of(parts.drop_last());
        let t = trim(parts.last());
        if t.len() == 0 {
            prev
        } else {
            prev.push(req_line(t))
        }
    }
}

/// Requirements text as one "Label: value" per line. (The lines are the
/// pieces between newlines, trimmed; the trailing '\r' and final empty line
/// that `str::lines` drops go with the trim and the empty-line skip.)
pub open spec fn format_requirements_spec(text: Seq<char>) -> Seq<char> {
    crate::text::join_with(
        req_lines_of(crate::text::split_on(split_at_labels(text), seq!['\n'])),
        '\n',
    )
}

fn req_labels_vec() -> (t: Vec<Vec<char>>)
    ensures
        vecs_view(t@) == req_labels(),
{
    let t = vec![
        chars_of("OS *"),
        chars_of("OS"),
        chars_of("Processor"),
        chars_of("Memory"),
        chars_of("Graphics"),
        chars_of("DirectX"),
        chars_of("Storage"),
        chars_of("Sound Card"),
        chars_of("Network"),
        chars_of("Additional Notes"),
    ];
    assert(vecs_view(t@) =~= req_labels());
    t
}

fn label_used_at_vec(text: &Vec<char>, pos: usize, label: &Vec<char>) -> (r: bool)
    requires
        pos + label.len() <= text.len(),
    ensures
        r == label_used_at(text@, pos as int, label@),
{
    let tail = vec_of_range(text, pos + label.len(), text.len());
    assert(tail@ =~= text@.skip(pos + label@.len()));
    let after = crate::text::trim_start_vec(&tail);
    let colon = vec![':'];
    let star = vec!['*'];
    assert(colon@ =~= seq![':']);
    assert(star@ =~= seq!['*']);
    if starts_with_chars(&after, &colon) {
        return true;
    }
    if starts_with_chars(&after, &star) {
        let rest = vec_of_range(&after, 1, after.len());
        assert(rest@ =~= after@.drop_first());
        let t = crate::text::trim_start_vec(&rest);
        return starts_with_chars(&t, &colon);
    }
    false
}

fn label_pos_vec(text: &Vec<char>, label: &Vec<char>) -> (r: Option<usize>)
    requires
        label.len() > 0,
    ensures
        r matches Some(p) ==> label_pos_from(text@, label@, 0) == Some(p as int),
        r is None ==> label_pos_from(text@, label@, 0) is None,
{
    let mut from: usize = 0;
    loop
        invariant
            label.len() > 0,
            from <= text.len(),
            label_pos_from(text@, label@, 0) == label_pos_from(text@, label@, from as int),
        decreases text.len() - from,
    {
        proof {
            crate::text::lemma_find_from(text@, label@, from as int);
        }
        match crate::text::find_chars_from(text, label, from) {
            None => return None,
            Some(pos) => {
                assert(crate::text::occurs_at(text@, label@, pos as int));
                let line_start = pos == 0 || text[pos - 1] == '\n';
                if !line_start && label_used_at_vec(text, pos, label) {
                    return Some(pos);
                }
                from = pos + label.len();
            },
        }
    }
}

/// Offset of the next requirement label glued mid-line to the previous
/// value (followed by ':'), if any.
pub fn find_label_start(text: &Vec<char>) -> (r: Option<usize>)
    ensures
        r matches Some(p) ==> label_start_from(text@, 0) == Some(p as int),
        r is None ==> label_start_from(text@, 0) is None,
{
    let labels = req_labels_vec();
    assert(labels@.len() == vecs_view(labels@).len());
    proof {
        reveal_strlit("OS *");
        reveal_strlit("OS");
        reveal_strlit("Processor");
        reveal_strlit("Memory");
        reveal_strlit("Graphics");
        reveal_strlit("DirectX");
        reveal_strlit("Storage");
        reveal_strlit("Sound Card");
        reveal_strlit("Network");
        reveal_strlit("Additional Notes");
        assert forall|j: int| 0 <= j < 10 implies (#[trigger] req_labels()[j]).len() > 0 by {
            if j == 0 {
            } else if j == 1 {
            } else if j == 2 {
            } else if j == 3 {
            } else if j == 4 {
            } else if j == 5 {
            } else if j == 6 {
            } else if j == 7 {
            } else if j == 8 {
            } else {
            }
        }
    }
    let mut k: usize = 10;
    let mut best: Option<usize> = None;
    while k > 0
        invariant
            k <= 10,
            labels.len() == 10,
            vecs_view(labels@) == req_labels(),
            forall|j: int| 0 <= j < 10 ==> (#[trigger] req_labels()[j]).len() > 0,
            best matches Some(b) ==> label_start_from(text@, k as int) == Some(b as int),
            best is None ==> label_start_from(text@, k as int) is None,
        decreases k,
    {
        let j = k - 1;
        assert(labels@[j as int]@ == req_labels()[j as int]);
        let p = label_pos_vec(text, &labels[j]);
        best = match p {
            Some(x) => match best {
                Some(b) => Some(if x <= b {
                    x
                } else {
                    b
                }),
                None => Some(x),
            },
            None => best,
        };
        k = j;
    }
    best
}

fn req_line_vec(t: &Vec<char>) -> (r: Vec<char>)
    ensures
        r@ == req_line(t@),
{
    match crate::text::index_of_char(t, ':', 0) {
        Some(c) => {
            let head = vec_of_range(t, 0, c);
            assert(head@ =~= t@.take(c as int));
            let label = trimmed_vec(&head);
            let tail = vec_of_range(t, c + 1, t.len());
            assert(tail@ =~= t@.skip(c + 1));
            let value = trimmed_vec(&tail);
            if label.len() > 0 && value.len() > 0 && label.len() <= 20 {
                let lower = lower_vec(&label);
                if crate::text::seq_equal(&lower, &chars_of("minimum")) || crate::text::seq_equal(
                    &lower,
                    &chars_of("recommended"),
                ) {
                    value
                } else {
                    let tc = titlecase(string_of(&label).as_str());
                    let mut out = chars_of(tc.as_str());
                    push_str_vec(&mut out, ": ");
                    push_vec(&mut out, &value);
                    out
                }
            } else {
                vec_of_range(t, 0, t.len())
            }
        },
        None => {
            let r = vec_of_range(t, 0, t.len());
            assert(r@ =~= t@);
            r
        },
    }
}

/// Format scraped requirements into one "Label: value" per line, splitting
/// run-on text at the known labels first.
pub fn format_requirements(text: &str) -> (r: String)
    ensures
        r@ == format_requirements_spec(text@),
{
    let mut rest = chars_of(text);
    let mut normalized: Vec<char> = Vec::new();
    assert(normalized@ + split_at_labels(rest@) =~= split_at_labels(text@));
    let mut done = false;
    while !done
        invariant
            split_at_labels(text@) == normalized@ + split_at_labels(rest@),
            done ==> label_start_from(rest@, 0) is None,
        decreases rest.len() + if done { 0int } else { 1int },
    {
        proof {
            lemma_label_start_from(rest@, 0);
        }
        match find_label_start(&rest) {
            Some(pos) => {
                let head = vec_of_range(&rest, 0, pos);
                let next = vec_of_range(&rest, pos, rest.len());
                assert(head@ =~= rest@.take(pos as int));
                assert(next@ =~= rest@.skip(pos as int));
                let ghost before = normalized@;
                push_vec(&mut normalized, &head);
                normalized.push('\n');
                assert(before + (rest@.take(pos as int) + seq!['\n'] + split_at_labels(next@))
                    =~= normalized@ + split_at_labels(next@));
                rest = next;
            },
            None => {
                done = true;
            },
        }
    }
    push_vec(&mut normalized, &rest);
    let nl = vec!['\n'];
    assert(nl@ =~= seq!['\n']);
    let parts = crate::text::split_on_vec(&normalized, &nl);
    let ghost pv = vecs_view(parts@);
    let mut lines: Vec<Vec<char>> = Vec::new();
    let mut i: usize = 0;
    assert(pv.take(0) =~= Seq::<Seq<char>>::empty());
    assert(vecs_view(lines@) =~= Seq::<Seq<char>>::empty());
    while i < parts.len()
        invariant
            i <= parts.len(),
            pv == vecs_view(parts@),
            vecs_view(lines@) == req_lines_of(pv.take(i as int)),
        decreases parts.len() - i,
    {
        assert(pv.take(i + 1).drop_last() =~= pv.take(i as int));
        assert(pv.take(i + 1).last() == parts@[i as int]@);
        let t = trimmed_vec(&parts[i]);
        if t.len() > 0 {
            let line = req_line_vec(&t);
            let ghost prev = vecs_view(lines@);
            let ghost lv = line@;
            lines.push(line);
            assert(vecs_view(lines@) =~= prev.push(lv));
        }
        i += 1;
    }
    assert(pv.take(parts.len() as int) =~= pv);
    string_of(&crate::text::join_with_vec(&lines, '\n'))
}

} // verus!

verus! {

// ---------------------------------------------------------------------------
// Download links
// ---------------------------------------------------------------------------

/// The display name of a URL's host: the first label of the host,
/// capitalized; `None` for a URL that is not http(s) or an empty name.
pub open spec fn host_label_of_spec(url: Seq<char>) -> Option<Seq<char>> {
    let rest = if starts_with(url, "https://"@) {
        Some(url.skip("https://"@.len() as int))
    } else if starts_with(url, "http://"@) {
        Some(url.skip("http://"@.len() as int))
    } else {
        None
    };
    match rest {
        None => None,
        Some(r) => {
            let name = crate::text::before_char(crate::text::before_char(r, '/'), '.');
            if name.len() == 0 {
                None
            } else {
                Some(capitalize_spec(name))
            }
        },
    }
}

fn host_label_of(url: &Vec<char>) -> (r: Option<Vec<char>>)
    ensures
        crate::page::ov(r) == host_label_of_spec(url@),
{
    let https = chars_of("https://");
    let http = chars_of("http://");
    let rest = if starts_with_chars(url, &https) {
        let r = vec_of_range(url, https.len(), url.len());
        assert(r@ =~= url@.skip(https@.len() as int));
        r
    } else if starts_with_chars(url, &http) {
        let r = vec_of_range(url, http.len(), url.len());
        assert(r@ =~= url@.skip(http@.len() as int));
        r
    } else {
        return None;
    };
    let host = crate::text::before_char_vec(&rest, '/');
    let name = crate::text::before_char_vec(&host, '.');
    if name.len() == 0 {
        None
    } else {
        Some(capitalize_vec(&name))
    }
}

/// "Direct Download" for the first link, "Mirror Download i" after it.
pub open spec fn link_label(i: int) -> Seq<char> {
    if i == 0 {
        "Direct Download"@
    } else {
        "Mirror Download "@ + crate::text::decimal(i as nat)
    }
}

/// The link for the `i`-th page URL.
pub open spec fn link_for(
    page: crate::models::SourcePageDetailsV,
    i: int,
    url: Seq<char>,
    version: Seq<char>,
) -> crate::models::DownloadLinkV {
    let host = match host_label_of_spec(url) {
        Some(h) => h,
        None => match page.download_host {
            Some(h) => h,
            None => "Direct Download"@,
        },
    };
    crate::models::DownloadLinkV {
        label: link_label(i),
        url: url,
        platform: Some("Windows"@),
        version: Some(version),
        file_size: page.file_size,
        note: Some(
            "Fast file-host download via "@ + host
                + ". If a short wait appears, click the button shown and the file starts."@,
        ),
    }
}

/// Links for the first `n` page URLs, skipping those over 2000 bytes.
pub open spec fn links_from(page: crate::models::SourcePageDetailsV, version: Seq<char>, n: int) -> Seq<
    crate::models::DownloadLinkV,
>
    decreases n,
{
    if n <= 0 {
        Seq::empty()
    } else {
        let prev = links_from(page, version, n - 1);
        let url = page.download_urls[n - 1];
        if crate::slug::byte_len(url) > 2000 {
            prev
        } else {
            prev.push(link_for(page, n - 1, url, version))
        }
    }
}

/// The listing's download links: the page's first four file-host URLs.
pub open spec fn download_links_spec(page: crate::models::SourcePageDetailsV, version: Seq<char>) -> Seq<
    crate::models::DownloadLinkV,
> {
    links_from(
        page,
        version,
        if page.download_urls.len() < 4 {
            page.download_urls.len() as int
        } else {
            4
        },
    )
}

pub open spec fn short_url(u: Seq<char>) -> bool {
    crate::slug::byte_len(u) <= 2000
}

/// How many page URLs a listing draws its links from: at most four.
pub open spec fn first_four(n: nat) -> int {
    if n < 4 {
        n as int
    } else {
        4
    }
}

/// The URLs of at most 2000 bytes, in order.
pub open spec fn short_urls(s: Seq<Seq<char>>) -> Seq<Seq<char>>
    decreases s.len(),
{
    if s.len() == 0 {
        Seq::empty()
    } else if short_url(s.last()) {
        short_urls(s.drop_last()).push(s.last())
    } else {
        short_urls(s.drop_last())
    }
}

/// The links are exactly those of the first `n` page URLs of at most 2000
/// bytes, in order, each for Windows with the version and the page's file
/// size; the first page URL, when kept, is the "Direct Download".
pub proof fn lemma_links_exact(page: crate::models::SourcePageDetailsV, version: Seq<char>, n: int)
    requires
        0 <= n <= page.download_urls.len(),
    ensures
        links_from(page, version, n).map_values(|l: crate::models::DownloadLinkV| l.url)
            == short_urls(page.download_urls.take(n)),
        forall|k: int| 0 <= k < links_from(page, version, n).len() ==> {
            let l = #[trigger] links_from(page, version, n)[k];
            &&& l.platform == Some("Windows"@)
            &&& l.version == Some(version)
            &&& l.file_size == page.file_size
        },
        n > 0 && short_url(page.download_urls[0]) ==> links_from(page, version, n)[0].label
            == "Direct Download"@ && links_from(page, version, n)[0].url == page.download_urls[0],
    decreases n,
{
    if n > 0 {
        lemma_links_exact(page, version, n - 1);
        let prev = links_from(page, version, n - 1);
        let t = page.download_urls.take(n);
        assert(t.drop_last() =~= page.download_urls.take(n - 1));
        assert(t.last() == page.download_urls[n - 1]);
        let cur = links_from(page, version, n);
        if short_url(page.download_urls[n - 1]) {
            assert(cur.map_values(|l: crate::models::DownloadLinkV| l.url) =~= prev.map_values(
                |l: crate::models::DownloadLinkV| l.url,
            ).push(page.download_urls[n - 1]));
        }
        assert forall|k: int| 0 <= k < cur.len() implies {
            let l = #[trigger] cur[k];
            &&& l.platform == Some("Windows"@)
            &&& l.version == Some(version)
            &&& l.file_size == page.file_size
        } by {
            if k < prev.len() {
                assert(cur[k] == prev[k]);
            }
        }
        if n == 1 {
            assert(prev.len() == 0);
        } else if short_url(page.download_urls[0]) {
            lemma_links_from(page, version, n - 1);
            assert(prev.len() > 0) by {
                assert(short_urls(page.download_urls.take(n - 1)).len() > 0) by {
                    lemma_first_kept(page.download_urls.take(n - 1));
                }
            }
            assert(cur[0] == prev[0]);
        }
    }
}

proof fn lemma_first_kept(s: Seq<Seq<char>>)
    requires
        s.len() > 0,
        short_url(s[0]),
    ensures
        short_urls(s).len() > 0,
    decreases s.len(),
{
    if s.len() > 1 {
        assert(s.drop_last()[0] == s[0]);
        lemma_first_kept(s.drop_last());
    } else {
        assert(short_urls(s.drop_last()).len() == 0);
    }
}

pub proof fn lemma_links_from(page: crate::models::SourcePageDetailsV, version: Seq<char>, n: int)
    requires
        n <= page.download_urls.len(),
    ensures
        links_from(page, version, n).len() <= if n < 0 { 0 } else { n },
        forall|k: int| 0 <= k < links_from(page, version, n).len() ==> exists|j: int| 0 <= j < n
            && (#[trigger] links_from(page, version, n)[k]).url == page.download_urls[j]
            && crate::slug::byte_len(links_from(page, version, n)[k].url) <= 2000,
    decreases n,
{
    if n > 0 {
        lemma_links_from(page, version, n - 1);
        let prev = links_from(page, version, n - 1);
        assert forall|k: int| 0 <= k < links_from(page, version, n).len() implies exists|j: int|
            0 <= j < n && (#[trigger] links_from(page, version, n)[k]).url == page.download_urls[j]
                && crate::slug::byte_len(links_from(page, version, n)[k].url) <= 2000 by {
            if k < prev.len() {
                assert(links_from(page, version, n)[k] == prev[k]);
            } else {
                assert(links_from(page, version, n)[k].url == page.download_urls[n - 1]);
            }
        }
    }
}

/// Build the listing's download links: only the file-host URLs behind the
/// source page's download button, at most four, each under 2000 bytes.
pub fn download_links_for(page: &SourcePageDetails, version: &str) -> (r: Vec<DownloadLink>)
    ensures
        crate::models::links_view(r@) == download_links_spec(page@, version@),
        r@.len() <= 4,
        forall|k: int| 0 <= k < r@.len() ==> exists|j: int| 0 <= j < page@.download_urls.len()
            && (#[trigger] r@[k])@.url == page@.download_urls[j] && crate::slug::byte_len(r@[k]@.url) <= 2000,
{
    let ghost pv = page@;
    let n: usize = if page.download_urls.len() < 4 {
        page.download_urls.len()
    } else {
        4
    };
    let mut links: Vec<DownloadLink> = Vec::new();
    let mut i: usize = 0;
    while i < n
        invariant
            i <= n <= page.download_urls.len(),
            n <= 4,
            pv == page@,
            crate::models::links_view(links@) == links_from(pv, version@, i as int),
        decreases n - i,
    {
        let url = chars_of(page.download_urls[i].as_str());
        assert(url@ == pv.download_urls[i as int]);
        if !crate::slug::bytes_exceed(&url, 2000) {
            let host = match host_label_of(&url) {
                Some(h) => h,
                None => match &page.download_host {
                    Some(h) => chars_of(h.as_str()),
                    None => chars_of("Direct Download"),
                },
            };
            let label = if i == 0 {
                String::from_str("Direct Download")
            } else {
                let mut l = chars_of("Mirror Download ");
                push_vec(&mut l, &crate::text::decimal_vec(i as u64));
                string_of(&l)
            };
            let mut note = chars_of("Fast file-host download via ");
            push_vec(&mut note, &host);
            push_str_vec(
                &mut note,
                ". If a short wait appears, click the button shown and the file starts.",
            );
            let link = DownloadLink {
                label,
                url: string_of(&url),
                platform: Some(String::from_str("Windows")),
                version: Some(String::from_str(version)),
                file_size: crate::models::copy_opt_string(&page.file_size),
                note: Some(string_of(&note)),
            };
            let ghost prev = crate::models::links_view(links@);
            assert(link@ == link_for(pv, i as int, url@, version@));
            links.push(link);
            assert(crate::models::links_view(links@) =~= prev.push(link_for(pv, i as int, url@, version@)));
        }
        i += 1;
    }
    proof {
        lemma_links_from(pv, version@, n as int);
        assert forall|k: int| 0 <= k < links@.len() implies exists|j: int| 0 <= j < page@.download_urls.len()
            && (#[trigger] links@[k])@.url == page@.download_urls[j] && crate::slug::byte_len(links@[k]@.url) <= 2000 by {
            assert(links@[k]@ == crate::models::links_view(links@)[k]);
        }
    }
    links
}

} // verus!

verus! {

// ---------------------------------------------------------------------------
// Steam data
// ---------------------------------------------------------------------------

/// What Steam tells about an app (appdetails), after the page merge.
#[derive(Debug)]
pub struct SteamDetails {
    pub description: Option<String>,
    pub developer: Option<String>,
    pub publisher: Option<String>,
    pub release_date: Option<String>,
    pub platforms: Option<Vec<String>>,
    /// Steam "categories" (Single-player, Co-op, Controller support...).
    pub categories: Vec<String>,
    /// Steam genres (Action, RPG...).
    pub genres: Vec<String>,
    pub screenshots: Vec<String>,
    /// Windows minimum requirements (HTML).
    pub minimum: Option<String>,
    /// Windows recommended requirements (HTML).
    pub recommended: Option<String>,
}

pub struct SteamDetailsV {
    pub description: Option<Seq<char>>,
    pub developer: Option<Seq<char>>,
    pub publisher: Option<Seq<char>>,
    pub release_date: Option<Seq<char>>,
    pub platforms: Option<Seq<Seq<char>>>,
    pub categories: Seq<Seq<char>>,
    pub genres: Seq<Seq<char>>,
    pub screenshots: Seq<Seq<char>>,
    pub minimum: Option<Seq<char>>,
    pub recommended: Option<Seq<char>>,
}

impl View for SteamDetails {
    type V = SteamDetailsV;

    open spec fn view(&self) -> SteamDetailsV {
        SteamDetailsV {
            description: self.description.deep_view(),
            developer: self.developer.deep_view(),
            publisher: self.publisher.deep_view(),
            release_date: self.release_date.deep_view(),
            platforms: self.platforms.deep_view(),
            categories: self.categories.deep_view(),
            genres: self.genres.deep_view(),
            screenshots: self.screenshots.deep_view(),
            minimum: self.minimum.deep_view(),
            recommended: self.recommended.deep_view(),
        }
    }
}

pub open spec fn no_steam_details() -> SteamDetailsV {
    SteamDetailsV {
        description: None,
        developer: None,
        publisher: None,
        release_date: None,
        platforms: None,
        categories: Seq::empty(),
        genres: Seq::empty(),
        screenshots: Seq::empty(),
        minimum: None,
        recommended: None,
    }
}

impl Default for SteamDetails {
    fn default() -> (r: Self)
        ensures
            r@ == no_steam_details(),
    {
        let r = SteamDetails {
            description: None,
            developer: None,
            publisher: None,
            release_date: None,
            platforms: None,
            categories: Vec::new(),
            genres: Vec::new(),
            screenshots: Vec::new(),
            minimum: None,
            recommended: None,
        };
        assert(r@.categories =~= Seq::<Seq<char>>::empty());
        assert(r@.genres =~= Seq::<Seq<char>>::empty());
        assert(r@.screenshots =~= Seq::<Seq<char>>::empty());
        r
    }
}

impl SteamDetails {
    pub fn duplicate(&self) -> (r: SteamDetails)
        ensures
            r@ == self@,
    {
        SteamDetails {
            description: crate::models::copy_opt_string(&self.description),
            developer: crate::models::copy_opt_string(&self.developer),
            publisher: crate::models::copy_opt_string(&self.publisher),
            release_date: crate::models::copy_opt_string(&self.release_date),
            platforms: copy_opt_strings(&self.platforms),
            categories: crate::models::copy_strings(&self.categories),
            genres: crate::models::copy_strings(&self.genres),
            screenshots: crate::models::copy_strings(&self.screenshots),
            minimum: crate::models::copy_opt_string(&self.minimum),
            recommended: crate::models::copy_opt_string(&self.recommended),
        }
    }
}

pub fn copy_opt_strings(o: &Option<Vec<String>>) -> (r: Option<Vec<String>>)
    ensures
        r.deep_view() == o.deep_view(),
{
    match o {
        Some(v) => Some(crate::models::copy_strings(v)),
        None => None,
    }
}

/// Steam's requirements field: an object with `minimum`/`recommended`, a
/// list of `{title, requirements}` entries, or anything else.
pub enum PcRequirements {
    Missing,
    Object { minimum: Option<String>, recommended: Option<String> },
    List(Vec<RequirementEntry>),
    Other,
}

/// One `{title, requirements}` entry (string values only).
pub struct RequirementEntry {
    pub title: Option<String>,
    pub requirements: Option<String>,
}

pub struct RequirementEntryV {
    pub title: Option<Seq<char>>,
    pub requirements: Option<Seq<char>>,
}

impl View for RequirementEntry {
    type V = RequirementEntryV;

    open spec fn view(&self) -> RequirementEntryV {
        RequirementEntryV { title: self.title.deep_view(), requirements: self.requirements.deep_view() }
    }
}

pub open spec fn entries_view(es: Seq<RequirementEntry>) -> Seq<RequirementEntryV> {
    es.map_values(|e: RequirementEntry| e@)
}

/// Over the list entries in order: a titled "minimum" entry with text sets
/// the minimum, else a "recommended" one the recommended; later entries win.
pub open spec fn req_entries_fold(es: Seq<RequirementEntryV>) -> (Option<Seq<char>>, Option<Seq<char>>)
    decreases es.len(),
{
    if es.len() == 0 {
        (None, None)
    } else {
        let prev = req_entries_fold(es.drop_last());
        let e = es.last();
        let lower = lower_of(
            match e.title {
                Some(t) => t,
                None => Seq::empty(),
            },
        );
        if e.requirements is Some && contains(lower, "minimum"@) {
            (e.requirements, prev.1)
        } else if e.requirements is Some && contains(lower, "recommended"@) {
            (prev.0, e.requirements)
        } else {
            prev
        }
    }
}

/// `pc_requirements` in plain values.
pub enum PcRequirementsV {
    Missing,
    Object { minimum: Option<Seq<char>>, recommended: Option<Seq<char>> },
    List(Seq<RequirementEntryV>),
    Other,
}

impl View for PcRequirements {
    type V = PcRequirementsV;

    open spec fn view(&self) -> PcRequirementsV {
        match self {
            PcRequirements::Missing => PcRequirementsV::Missing,
            PcRequirements::Object { minimum, recommended } => PcRequirementsV::Object {
                minimum: minimum.deep_view(),
                recommended: recommended.deep_view(),
            },
            PcRequirements::List(es) => PcRequirementsV::List(entries_view(es@)),
            PcRequirements::Other => PcRequirementsV::Other,
        }
    }
}

/// The minimum and recommended requirement blobs of a `pc_requirements`.
pub open spec fn pc_requirements_of(v: PcRequirementsV) -> (Option<Seq<char>>, Option<Seq<char>>) {
    match v {
        PcRequirementsV::Object { minimum, recommended } => (minimum, recommended),
        PcRequirementsV::List(es) => req_entries_fold(es),
        _ => (None, None),
    }
}

pub open spec fn pc_requirements_spec(v: PcRequirements) -> (Option<Seq<char>>, Option<Seq<char>>) {
    pc_requirements_of(v@)
}

/// The Windows minimum/recommended requirement blobs.
pub fn requirement_blobs(value: &PcRequirements) -> (r: (Option<String>, Option<String>))
    ensures
        (r.0.deep_view(), r.1.deep_view()) == pc_requirements_spec(*value),
{
    match value {
        PcRequirements::Object { minimum, recommended } => (
            crate::models::copy_opt_string(minimum),
            crate::models::copy_opt_string(recommended),
        ),
        PcRequirements::List(es) => {
            let mut min: Option<String> = None;
            let mut rec: Option<String> = None;
            let mut i: usize = 0;
            let ghost ev = entries_view(es@);
            assert(ev.take(0) =~= Seq::<RequirementEntryV>::empty());
            while i < es.len()
                invariant
                    i <= es.len(),
                    ev == entries_view(es@),
                    (min.deep_view(), rec.deep_view()) == req_entries_fold(ev.take(i as int)),
                decreases es.len() - i,
            {
                assert(ev.take(i + 1).drop_last() =~= ev.take(i as int));
                assert(ev.take(i + 1).last() == es@[i as int]@);
                let e = &es[i];
                let title = match &e.title {
                    Some(t) => chars_of(t.as_str()),
                    None => Vec::new(),
                };
                assert(title@ == match e@.title {
                    Some(t) => t,
                    None => Seq::<char>::empty(),
                });
                let lower = lower_vec(&title);
                if e.requirements.is_some() && contains_chars(&lower, &chars_of("minimum")) {
                    min = crate::models::copy_opt_string(&e.requirements);
                } else if e.requirements.is_some() && contains_chars(&lower, &chars_of("recommended")) {
                    rec = crate::models::copy_opt_string(&e.requirements);
                }
                i += 1;
            }
            assert(ev.take(es.len() as int) =~= ev);
            (min, rec)
        },
        _ => (None, None),
    }
}

/// The appdetails fields the listing reads, as plain values.
pub struct SteamAppData {
    pub short_description: Option<String>,
    pub detailed_description: Option<String>,
    pub developers: Vec<String>,
    pub publishers: Vec<String>,
    pub release_date: Option<String>,
    pub windows: bool,
    pub mac: bool,
    pub linux: bool,
    pub categories: Vec<String>,
    pub genres: Vec<String>,
    pub screenshots: Vec<String>,
    pub pc_requirements: PcRequirements,
}

pub struct SteamAppDataV {
    pub short_description: Option<Seq<char>>,
    pub detailed_description: Option<Seq<char>>,
    pub developers: Seq<Seq<char>>,
    pub publishers: Seq<Seq<char>>,
    pub release_date: Option<Seq<char>>,
    pub windows: bool,
    pub mac: bool,
    pub linux: bool,
    pub categories: Seq<Seq<char>>,
    pub genres: Seq<Seq<char>>,
    pub screenshots: Seq<Seq<char>>,
    pub pc_requirements: PcRequirementsV,
}

impl View for SteamAppData {
    type V = SteamAppDataV;

    open spec fn view(&self) -> SteamAppDataV {
        SteamAppDataV {
            short_description: self.short_description.deep_view(),
            detailed_description: self.detailed_description.deep_view(),
            developers: self.developers.deep_view(),
            publishers: self.publishers.deep_view(),
            release_date: self.release_date.deep_view(),
            windows: self.windows,
            mac: self.mac,
            linux: self.linux,
            categories: self.categories.deep_view(),
            genres: self.genres.deep_view(),
            screenshots: self.screenshots.deep_view(),
            pc_requirements: self.pc_requirements@,
        }
    }
}

pub open spec fn first_of(v: Seq<Seq<char>>) -> Option<Seq<char>> {
    if v.len() > 0 {
        Some(v[0])
    } else {
        None
    }
}

pub open spec fn platforms_of(windows: bool, mac: bool, linux: bool) -> Seq<Seq<char>> {
    (if windows {
        seq!["Windows"@]
    } else {
        Seq::empty()
    }) + (if mac {
        seq!["macOS"@]
    } else {
        Seq::empty()
    }) + (if linux {
        seq!["Linux"@]
    } else {
        Seq::empty()
    })
}

/// Steam details from appdetails: the short description (else the detailed
/// one as plain text), the first developer and publisher, the platforms
/// flagged, categories, genres, up to 8 screenshots and the requirements.
pub open spec fn steam_details_of(d: SteamAppDataV) -> SteamDetailsV {
    let p = platforms_of(d.windows, d.mac, d.linux);
    let reqs = pc_requirements_of(d.pc_requirements);
    SteamDetailsV {
        description: match d.short_description {
            Some(s) => Some(s),
            None => match d.detailed_description {
                Some(x) => Some(strip_html_spec(x)),
                None => None,
            },
        },
        developer: first_of(d.developers),
        publisher: first_of(d.publishers),
        release_date: d.release_date,
        platforms: if p.len() > 0 {
            Some(p)
        } else {
            None
        },
        categories: d.categories,
        genres: d.genres,
        screenshots: crate::text::take_seq(d.screenshots, 8),
        minimum: reqs.0,
        recommended: reqs.1,
    }
}

pub open spec fn steam_details_spec(d: SteamAppData) -> SteamDetailsV {
    steam_details_of(d@)
}

fn first_string(v: &Vec<String>) -> (r: Option<String>)
    ensures
        r.deep_view() == first_of(v.deep_view()),
{
    if v.len() > 0 {
        Some(v[0].clone())
    } else {
        None
    }
}

/// Steam details from the appdetails data of one app.
pub fn steam_details_from(data: &SteamAppData) -> (r: SteamDetails)
    ensures
        r@ == steam_details_spec(*data),
{
    let description = match &data.short_description {
        Some(s) => Some(s.clone()),
        None => match &data.detailed_description {
            Some(x) => Some(strip_html(x.as_str())),
            None => None,
        },
    };
    let mut platforms: Vec<String> = Vec::new();
    if data.windows {
        platforms.push(String::from_str("Windows"));
    }
    if data.mac {
        platforms.push(String::from_str("macOS"));
    }
    if data.linux {
        platforms.push(String::from_str("Linux"));
    }
    assert(platforms.deep_view() =~= platforms_of(data.windows, data.mac, data.linux));
    let (minimum, recommended) = requirement_blobs(&data.pc_requirements);
    let r = SteamDetails {
        description,
        developer: first_string(&data.developers),
        publisher: first_string(&data.publishers),
        release_date: crate::models::copy_opt_string(&data.release_date),
        platforms: if platforms.len() > 0 {
            Some(platforms)
        } else {
            None
        },
        categories: crate::models::copy_strings(&data.categories),
        genres: crate::models::copy_strings(&data.genres),
        screenshots: crate::text::take_strings(&data.screenshots, 8),
        minimum,
        recommended,
    };
    r
}

/// The platforms a listing names: Steam's list when it names any, else
/// "Windows".
pub open spec fn platforms_or_windows(p: Option<Seq<Seq<char>>>) -> Seq<Seq<char>> {
    match p {
        Some(l) if l.len() > 0 => l,
        _ => seq!["Windows"@],
    }
}

/// Steam's values win; the page fills the developer, publisher, genres and
/// minimum requirements Steam lacks.
pub open spec fn merge_spec(d: SteamDetailsV, page: crate::models::SourcePageDetailsV) -> SteamDetailsV {
    SteamDetailsV {
        developer: if d.developer is None {
            page.developer
        } else {
            d.developer
        },
        publisher: if d.publisher is None {
            page.publisher
        } else {
            d.publisher
        },
        genres: if d.genres.len() == 0 {
            page.genres
        } else {
            d.genres
        },
        minimum: if d.minimum is None {
            page.minimum
        } else {
            d.minimum
        },
        ..d
    }
}

/// Fold source-page details into Steam details: Steam wins when it has a
/// value; the page scrape fills the rest.
pub fn merge_page_details(details: SteamDetails, page: &SourcePageDetails) -> (r: SteamDetails)
    ensures
        r@ == merge_spec(details@, page@),
{
    let mut d = details;
    if d.developer.is_none() {
        d.developer = crate::models::copy_opt_string(&page.developer);
    }
    if d.publisher.is_none() {
        d.publisher = crate::models::copy_opt_string(&page.publisher);
    }
    if d.genres.len() == 0 {
        d.genres = crate::models::copy_strings(&page.genres);
    }
    if d.minimum.is_none() {
        d.minimum = crate::models::copy_opt_string(&page.minimum);
    }
    d
}

} // verus!

verus! {

// ---------------------------------------------------------------------------
// Images (Steam's CDN only)
// ---------------------------------------------------------------------------

/// The images of a listing.
pub struct ImageSet {
    pub cover: Option<String>,
    pub hero: Option<String>,
    pub featured: Option<String>,
    pub screenshots: Vec<String>,
}

pub struct ImageSetV {
    pub cover: Option<Seq<char>>,
    pub hero: Option<Seq<char>>,
    pub featured: Option<Seq<char>>,
    pub screenshots: Seq<Seq<char>>,
}

impl View for ImageSet {
    type V = ImageSetV;

    open spec fn view(&self) -> ImageSetV {
        ImageSetV {
            cover: self.cover.deep_view(),
            hero: self.hero.deep_view(),
            featured: self.featured.deep_view(),
            screenshots: self.screenshots.deep_view(),
        }
    }
}

pub open spec fn no_images() -> ImageSetV {
    ImageSetV { cover: None, hero: None, featured: None, screenshots: Seq::empty() }
}

impl Default for ImageSet {
    fn default() -> (r: Self)
        ensures
            r@ == no_images(),
    {
        let r = ImageSet { cover: None, hero: None, featured: None, screenshots: Vec::new() };
        assert(r@.screenshots =~= Seq::<Seq<char>>::empty());
        r
    }
}

/// The candidate image URLs of an app: cover `header.jpg` (fallback
/// `capsule_616x353.jpg`), hero `library_hero.jpg` (fallback the cover),
/// and up to 8 full-resolution screenshots.
pub struct ImageCandidates {
    pub cover_main: String,
    pub cover_fallback: String,
    pub hero_main: String,
    pub hero_fallback: String,
    pub screenshots: Vec<String>,
}

/// Which candidate URLs answered a HEAD request (a missing screenshot entry
/// counts as a failure).
pub struct ImageChecks {
    pub cover_main: bool,
    pub cover_fallback: bool,
    pub hero_main: bool,
    pub hero_fallback: bool,
    pub screenshots: Vec<bool>,
}

pub open spec fn cdn_base(app_id: u64) -> Seq<char> {
    "https://cdn.cloudflare.steamstatic.com/steam/apps/"@ + crate::text::decimal(app_id as nat)
}

pub open spec fn candidates_ok(c: ImageCandidates, app_id: u64, screenshots: Seq<Seq<char>>) -> bool {
    &&& c.cover_main@ == cdn_base(app_id) + "/header.jpg"@
    &&& c.cover_fallback@ == cdn_base(app_id) + "/capsule_616x353.jpg"@
    &&& c.hero_main@ == cdn_base(app_id) + "/library_hero.jpg"@
    &&& c.hero_fallback@ == c.cover_main@
    &&& c.screenshots.deep_view() == crate::text::take_seq(screenshots, 8)
}

pub fn image_candidates(app_id: u64, screenshots: &Vec<String>) -> (r: ImageCandidates)
    ensures
        candidates_ok(r, app_id, screenshots.deep_view()),
{
    let mut base = chars_of("https://cdn.cloudflare.steamstatic.com/steam/apps/");
    push_vec(&mut base, &crate::text::decimal_vec(app_id));
    let mut cover = crate::text::vec_of_range(&base, 0, base.len());
    assert(cover@ =~= base@);
    push_str_vec(&mut cover, "/header.jpg");
    let mut capsule = crate::text::vec_of_range(&base, 0, base.len());
    assert(capsule@ =~= base@);
    push_str_vec(&mut capsule, "/capsule_616x353.jpg");
    let mut hero = crate::text::vec_of_range(&base, 0, base.len());
    assert(hero@ =~= base@);
    push_str_vec(&mut hero, "/library_hero.jpg");
    ImageCandidates {
        cover_main: string_of(&cover),
        cover_fallback: string_of(&capsule),
        hero_main: string_of(&hero),
        hero_fallback: string_of(&cover),
        screenshots: crate::text::take_strings(screenshots, 8),
    }
}

/// Without HEAD checks: the main cover and hero, every screenshot, the first
/// one featured.
pub open spec fn unverified_images(c: ImageCandidates) -> ImageSetV {
    ImageSetV {
        cover: Some(c.cover_main@),
        hero: Some(c.hero_main@),
        featured: first_of(c.screenshots.deep_view()),
        screenshots: c.screenshots.deep_view(),
    }
}

pub open spec fn shot_ok(k: ImageChecks, i: int) -> bool {
    i < k.screenshots@.len() && k.screenshots@[i]
}

/// The screenshots whose check passed, in order.
pub open spec fn checked_shots(shots: Seq<Seq<char>>, k: ImageChecks, n: int) -> Seq<Seq<char>>
    decreases n,
{
    if n <= 0 {
        Seq::empty()
    } else if shot_ok(k, n - 1) {
        checked_shots(shots, k, n - 1).push(shots[n - 1])
    } else {
        checked_shots(shots, k, n - 1)
    }
}

/// With HEAD checks: the first cover that answers, the first hero that
/// answers (else the cover), the first screenshot featured unchecked, and
/// the screenshots that answer.
pub open spec fn checked_images_of(
    cover_main: Seq<char>,
    cover_fallback: Seq<char>,
    hero_main: Seq<char>,
    hero_fallback: Seq<char>,
    shots: Seq<Seq<char>>,
    k: ImageChecks,
) -> ImageSetV {
    let cover = if k.cover_main {
        Some(cover_main)
    } else if k.cover_fallback {
        Some(cover_fallback)
    } else {
        None
    };
    ImageSetV {
        cover: cover,
        hero: if k.hero_main {
            Some(hero_main)
        } else if k.hero_fallback {
            Some(hero_fallback)
        } else {
            cover
        },
        featured: first_of(shots),
        screenshots: checked_shots(shots, k, shots.len() as int),
    }
}

pub open spec fn checked_images(c: ImageCandidates, k: ImageChecks) -> ImageSetV {
    checked_images_of(
        c.cover_main@,
        c.cover_fallback@,
        c.hero_main@,
        c.hero_fallback@,
        c.screenshots.deep_view(),
        k,
    )
}

/// The images of app `id` with the given Steam screenshots.
pub open spec fn images_spec(id: u64, shots: Seq<Seq<char>>, verify: bool, k: ImageChecks) -> ImageSetV {
    let cover_main = cdn_base(id) + "/header.jpg"@;
    let s8 = crate::text::take_seq(shots, 8);
    if verify {
        checked_images_of(
            cover_main,
            cdn_base(id) + "/capsule_616x353.jpg"@,
            cdn_base(id) + "/library_hero.jpg"@,
            cover_main,
            s8,
            k,
        )
    } else {
        ImageSetV {
            cover: Some(cover_main),
            hero: Some(cdn_base(id) + "/library_hero.jpg"@),
            featured: first_of(s8),
            screenshots: s8,
        }
    }
}

/// The image set of an app from its candidates, HEAD-checked or not.
pub fn images_from_steam(c: &ImageCandidates, verify: bool, checks: &ImageChecks) -> (r: ImageSet)
    ensures
        r@ == if verify {
            checked_images(*c, *checks)
        } else {
            unverified_images(*c)
        },
{
    let featured = first_string(&c.screenshots);
    if !verify {
        return ImageSet {
            cover: Some(c.cover_main.clone()),
            hero: Some(c.hero_main.clone()),
            featured,
            screenshots: crate::models::copy_strings(&c.screenshots),
        };
    }
    let cover = if checks.cover_main {
        Some(c.cover_main.clone())
    } else if checks.cover_fallback {
        Some(c.cover_fallback.clone())
    } else {
        None
    };
    let hero = if checks.hero_main {
        Some(c.hero_main.clone())
    } else if checks.hero_fallback {
        Some(c.hero_fallback.clone())
    } else {
        crate::models::copy_opt_string(&cover)
    };
    let ghost sv = c.screenshots.deep_view();
    let mut shots: Vec<String> = Vec::new();
    let mut i: usize = 0;
    while i < c.screenshots.len()
        invariant
            i <= c.screenshots.len(),
            sv == c.screenshots.deep_view(),
            shots.deep_view() == checked_shots(sv, *checks, i as int),
        decreases c.screenshots.len() - i,
    {
        if i < checks.screenshots.len() && checks.screenshots[i] {
            let ghost before = shots.deep_view();
            shots.push(c.screenshots[i].clone());
            assert(shots.deep_view() =~= before.push(sv[i as int]));
        }
        i += 1;
    }
    ImageSet { cover, hero, featured, screenshots: shots }
}

// ---------------------------------------------------------------------------
// SteamSpy tags
// ---------------------------------------------------------------------------

/// `a` ranks before `b`: more votes, then the smaller name.
pub open spec fn spy_before(a: (Seq<char>, u64), b: (Seq<char>, u64)) -> bool {
    a.1 > b.1 || (a.1 == b.1 && crate::text::lex_lt(a.0, b.0))
}

/// `x` inserted before the first entry it ranks before (after its equals).
pub open spec fn spy_insert(sorted: Seq<(Seq<char>, u64)>, x: (Seq<char>, u64)) -> Seq<(Seq<char>, u64)>
    decreases sorted.len(),
{
    if sorted.len() == 0 {
        seq![x]
    } else if spy_before(x, sorted[0]) {
        seq![x] + sorted
    } else {
        seq![sorted[0]] + spy_insert(sorted.drop_first(), x)
    }
}

/// The tags in vote order (a stable sort).
pub open spec fn spy_sort(s: Seq<(Seq<char>, u64)>) -> Seq<(Seq<char>, u64)>
    decreases s.len(),
{
    if s.len() == 0 {
        Seq::empty()
    } else {
        spy_insert(spy_sort(s.drop_last()), s.last())
    }
}

pub open spec fn spy_view(v: Seq<(String, u64)>) -> Seq<(Seq<char>, u64)> {
    v.map_values(|p: (String, u64)| (p.0@, p.1))
}

/// The votes of a SteamSpy tag: a count given as text, parsed as
/// `str::parse::<u64>` parses it; else the count given as a number; else 0.
pub fn vote_count(text: Option<&str>, number: Option<u64>) -> (r: u64)
    ensures
        r == match text {
            Some(t) => match crate::text::parse_u64_spec(t@) {
                Some(n) => n,
                None => match number {
                    Some(n) => n,
                    None => 0,
                },
            },
            None => match number {
                Some(n) => n,
                None => 0,
            },
        },
{
    let parsed = match text {
        Some(t) => crate::text::parse_u64(t),
        None => None,
    };
    match parsed {
        Some(n) => n,
        None => match number {
            Some(n) => n,
            None => 0,
        },
    }
}

/// Up to 15 tag names by votes (then name); `None` when there is none.
pub open spec fn spy_tags_spec(v: Seq<(Seq<char>, u64)>) -> Option<Seq<Seq<char>>> {
    let sorted = spy_sort(v);
    if sorted.len() == 0 {
        None
    } else {
        Some(crate::text::take_seq(sorted.map_values(|p: (Seq<char>, u64)| p.0), 15))
    }
}

proof fn lemma_spy_insert_len(sorted: Seq<(Seq<char>, u64)>, x: (Seq<char>, u64))
    ensures
        spy_insert(sorted, x).len() == sorted.len() + 1,
    decreases sorted.len(),
{
    if sorted.len() > 0 && !spy_before(x, sorted[0]) {
        lemma_spy_insert_len(sorted.drop_first(), x);
    }
}

proof fn lemma_spy_sort_len(s: Seq<(Seq<char>, u64)>)
    ensures
        spy_sort(s).len() == s.len(),
    decreases s.len(),
{
    if s.len() > 0 {
        lemma_spy_sort_len(s.drop_last());
        lemma_spy_insert_len(spy_sort(s.drop_last()), s.last());
    }
}

fn spy_before_exec(a: &(Vec<char>, u64), b: &(Vec<char>, u64)) -> (r: bool)
    ensures
        r == spy_before((a.0@, a.1), (b.0@, b.1)),
{
    a.1 > b.1 || (a.1 == b.1 && crate::text::lex_less(&a.0, &b.0))
}

fn spy_insert_vec(sorted: &mut Vec<(Vec<char>, u64)>, x: (Vec<char>, u64))
    ensures
        final(sorted)@.map_values(|p: (Vec<char>, u64)| (p.0@, p.1)) == spy_insert(
            old(sorted)@.map_values(|p: (Vec<char>, u64)| (p.0@, p.1)),
            (x.0@, x.1),
        ),
{
    let ghost sv = sorted@.map_values(|p: (Vec<char>, u64)| (p.0@, p.1));
    let ghost xv = (x.0@, x.1);
    let mut p: usize = 0;
    assert(sv.skip(0) =~= sv);
    while p < sorted.len() && !spy_before_exec(&x, &sorted[p])
        invariant
            p <= sorted.len(),
            sv == sorted@.map_values(|q: (Vec<char>, u64)| (q.0@, q.1)),
            xv == (x.0@, x.1),
            spy_insert(sv, xv) == sv.take(p as int) + spy_insert(sv.skip(p as int), xv),
        decreases sorted.len() - p,
    {
        assert(sv.skip(p as int)[0] == sv[p as int]);
        assert(sv.skip(p as int).drop_first() =~= sv.skip(p + 1));
        assert(sv.take(p + 1) =~= sv.take(p as int) + seq![sv[p as int]]);
        assert(sv.take(p as int) + (seq![sv[p as int]] + spy_insert(sv.skip(p + 1), xv)) =~= sv.take(p + 1)
            + spy_insert(sv.skip(p + 1), xv));
        p += 1;
    }
    if p < sorted.len() {
        assert(sv.skip(p as int)[0] == sv[p as int]);
    } else {
        assert(sv.skip(p as int) =~= Seq::<(Seq<char>, u64)>::empty());
    }
    sorted.insert(p, x);
    assert(sorted@.map_values(|q: (Vec<char>, u64)| (q.0@, q.1)) =~= sv.take(p as int) + (seq![xv]
        + sv.skip(p as int)));
}

/// The real Steam community tags by votes (then name), at most 15; `None`
/// for an empty list.
pub fn rank_spy_tags(tags: &Vec<(String, u64)>) -> (r: Option<Vec<String>>)
    ensures
        r.deep_view() == spy_tags_spec(spy_view(tags@)),
{
    let ghost tv = spy_view(tags@);
    let mut sorted: Vec<(Vec<char>, u64)> = Vec::new();
    let mut i: usize = 0;
    assert(tv.take(0) =~= Seq::<(Seq<char>, u64)>::empty());
    assert(sorted@.map_values(|q: (Vec<char>, u64)| (q.0@, q.1)) =~= Seq::<(Seq<char>, u64)>::empty());
    while i < tags.len()
        invariant
            i <= tags.len(),
            tv == spy_view(tags@),
            sorted@.map_values(|q: (Vec<char>, u64)| (q.0@, q.1)) == spy_sort(tv.take(i as int)),
        decreases tags.len() - i,
    {
        assert(tv.take(i + 1).drop_last() =~= tv.take(i as int));
        assert(tv.take(i + 1).last() == tv[i as int]);
        let name = chars_of(tags[i].0.as_str());
        spy_insert_vec(&mut sorted, (name, tags[i].1));
        i += 1;
    }
    assert(tv.take(tags.len() as int) =~= tv);
    proof {
        lemma_spy_sort_len(tv);
    }
    if sorted.len() == 0 {
        return None;
    }
    let ghost sv = sorted@.map_values(|q: (Vec<char>, u64)| (q.0@, q.1));
    let n: usize = if sorted.len() < 15 {
        sorted.len()
    } else {
        15
    };
    let mut out: Vec<String> = Vec::new();
    let mut k: usize = 0;
    while k < n
        invariant
            k <= n <= sorted.len(),
            sv == sorted@.map_values(|q: (Vec<char>, u64)| (q.0@, q.1)),
            out.len() == k,
            forall|j: int| 0 <= j < k ==> #[trigger] out@[j]@ == sv[j].0,
        decreases n - k,
    {
        out.push(string_of(&sorted[k].0));
        k += 1;
    }
    assert(out.deep_view() =~= crate::text::take_seq(sv.map_values(|p: (Seq<char>, u64)| p.0), 15));
    Some(out)
}

// ---------------------------------------------------------------------------
// Steam app resolution
// ---------------------------------------------------------------------------

pub open spec fn hit_rank(title: Seq<char>, name: Seq<char>) -> nat {
    crate::matching::rank_of(crate::matching::title_similarity_spec(title, name))
}

/// Over the store hits in order, the first one with the best passing rank.
pub open spec fn pick_from(title: Seq<char>, hits: Seq<(u64, Seq<char>)>) -> Option<(nat, u64)>
    decreases hits.len(),
{
    if hits.len() == 0 {
        None
    } else {
        let prev = pick_from(title, hits.drop_last());
        let h = hits.last();
        let r = hit_rank(title, h.1);
        if r >= 1 && (match prev {
            Some(b) => r > b.0,
            None => true,
        }) {
            Some((r, h.0))
        } else {
            prev
        }
    }
}

pub open spec fn hits_view(v: Seq<(u64, String)>) -> Seq<(u64, Seq<char>)> {
    v.map_values(|p: (u64, String)| (p.0, p.1@))
}

/// The store search query for a title; `None` when it normalizes to empty.
pub fn steam_query(title: &str) -> (r: Option<String>)
    ensures
        r.deep_view() == if crate::matching::normalize_spec(title@).len() == 0 {
            None
        } else {
            Some(crate::matching::normalize_spec(title@))
        },
{
    let q = crate::matching::normalize_title(title);
    let qv = chars_of(q.as_str());
    if qv.len() == 0 {
        None
    } else {
        Some(q)
    }
}

/// The store search hit a title resolves to: the first hit whose name is
/// similar enough (ratio at least 0.85), preferring strictly higher ratios.
pub fn pick_steam_app(title: &str, hits: &Vec<(u64, String)>) -> (r: Option<u64>)
    ensures
        r == if crate::matching::normalize_spec(title@).len() == 0 {
            None
        } else {
            match pick_from(title@, hits_view(hits@)) {
                Some(b) => Some(b.1),
                None => None,
            }
        },
{
    if steam_query(title).is_none() {
        return None;
    }
    let ghost hv = hits_view(hits@);
    let mut best: Option<(u8, u64)> = None;
    let mut i: usize = 0;
    assert(hv.take(0) =~= Seq::<(u64, Seq<char>)>::empty());
    while i < hits.len()
        invariant
            i <= hits.len(),
            hv == hits_view(hits@),
            match best {
                Some(b) => pick_from(title@, hv.take(i as int)) == Some((b.0 as nat, b.1)),
                None => pick_from(title@, hv.take(i as int)) is None,
            },
        decreases hits.len() - i,
    {
        assert(hv.take(i + 1).drop_last() =~= hv.take(i as int));
        assert(hv.take(i + 1).last() == hv[i as int]);
        let r = crate::matching::match_rank(crate::matching::title_similarity(title, hits[i].1.as_str()));
        let better = match best {
            Some(b) => r > b.0,
            None => true,
        };
        if r >= 1 && better {
            best = Some((r, hits[i].0));
        }
        i += 1;
    }
    assert(hv.take(hits.len() as int) =~= hv);
    match best {
        Some(b) => Some(b.1),
        None => None,
    }
}

/// The default Steam storefront and SteamSpy bases.
pub open spec fn default_store_api() -> Seq<char> {
    "https://store.steampowered.com"@
}

pub open spec fn default_spy_api() -> Seq<char> {
    "https://steamspy.com/api.php"@
}

/// The Steam storefront base: the configured one, else the public store.
pub fn store_api_base(configured: &Option<String>) -> (r: String)
    ensures
        r@ == match configured {
            Some(s) => s@,
            None => default_store_api(),
        },
{
    match configured {
        Some(s) => s.clone(),
        None => String::from_str("https://store.steampowered.com"),
    }
}

/// The SteamSpy base: the configured one, else the public API.
pub fn spy_api_base(configured: &Option<String>) -> (r: String)
    ensures
        r@ == match configured {
            Some(s) => s@,
            None => default_spy_api(),
        },
{
    match configured {
        Some(s) => s.clone(),
        None => String::from_str("https://steamspy.com/api.php"),
    }
}

/// The storefront search URL for a query.
pub fn store_search_url(api_base: &str, query: &str) -> (r: String)
    ensures
        r@ == api_base@ + "/api/storesearch/?term="@ + query@ + "&cc=us&l=en"@,
{
    let mut v = chars_of(api_base);
    push_str_vec(&mut v, "/api/storesearch/?term=");
    push_str_vec(&mut v, query);
    push_str_vec(&mut v, "&cc=us&l=en");
    string_of(&v)
}

/// The appdetails URL of an app.
pub fn app_details_url(api_base: &str, app_id: u64) -> (r: String)
    ensures
        r@ == api_base@ + "/api/appdetails?appids="@ + crate::text::decimal(app_id as nat) + "&l=english"@,
{
    let mut v = chars_of(api_base);
    push_str_vec(&mut v, "/api/appdetails?appids=");
    push_vec(&mut v, &crate::text::decimal_vec(app_id));
    push_str_vec(&mut v, "&l=english");
    string_of(&v)
}

/// The SteamSpy appdetails URL of an app.
pub fn steamspy_url(api_base: &str, app_id: u64) -> (r: String)
    ensures
        r@ == api_base@ + "?request=appdetails&appid="@ + crate::text::decimal(app_id as nat),
{
    let mut v = chars_of(api_base);
    push_str_vec(&mut v, "?request=appdetails&appid=");
    push_vec(&mut v, &crate::text::decimal_vec(app_id));
    string_of(&v)
}

/// The decimal form of an app id (the key of an appdetails response).
pub fn app_id_text(app_id: u64) -> (r: String)
    ensures
        r@ == crate::text::decimal(app_id as nat),
{
    string_of(&crate::text::decimal_vec(app_id))
}

} // verus!

verus! {

// ---------------------------------------------------------------------------
// Steam replies
// ---------------------------------------------------------------------------

/// The strings of a list, in order.
pub open spec fn strings_in(items: Seq<Json>) -> Seq<Seq<char>>
    decreases items.len(),
{
    if items.len() == 0 {
        Seq::empty()
    } else {
        let prev = strings_in(items.drop_last());
        match str_of(Some(items.last())) {
            Some(t) => prev.push(t),
            None => prev,
        }
    }
}

/// The `key` member of each entry that has one as a string, in order.
pub open spec fn fields_in(items: Seq<Json>, key: Seq<char>) -> Seq<Seq<char>>
    decreases items.len(),
{
    if items.len() == 0 {
        Seq::empty()
    } else {
        let prev = fields_in(items.drop_last(), key);
        match str_of(get_spec(items.last(), key)) {
            Some(t) => prev.push(t),
            None => prev,
        }
    }
}

/// The list under `field` (empty when there is none).
pub open spec fn list_at(data: Json, field: Seq<char>) -> Seq<Json> {
    match items_of(get_spec(data, field)) {
        Some(a) => a,
        None => Seq::empty(),
    }
}

pub open spec fn requirement_entry_of(e: Json) -> RequirementEntryV {
    RequirementEntryV {
        title: str_of(get_spec(e, "title"@)),
        requirements: str_of(get_spec(e, "requirements"@)),
    }
}

/// `pc_requirements`: an object of `minimum`/`recommended`, or a list of
/// `{title, requirements}` entries.
pub open spec fn requirements_json(v: Option<Json>) -> PcRequirementsV {
    match v {
        None => PcRequirementsV::Missing,
        Some(Json::Object(es)) => PcRequirementsV::Object {
            minimum: str_of(member_spec(es@, "minimum"@)),
            recommended: str_of(member_spec(es@, "recommended"@)),
        },
        Some(Json::Array(a)) => PcRequirementsV::List(a@.map_values(|e: Json| requirement_entry_of(e))),
        Some(_) => PcRequirementsV::Other,
    }
}

/// The fields the listing reads from an appdetails `data` object.
pub open spec fn app_data_spec(data: Json) -> SteamAppDataV {
    let platforms = get_spec(data, "platforms"@);
    SteamAppDataV {
        short_description: str_of(get_spec(data, "short_description"@)),
        detailed_description: str_of(get_spec(data, "detailed_description"@)),
        developers: strings_in(list_at(data, "developers"@)),
        publishers: strings_in(list_at(data, "publishers"@)),
        release_date: str_of(get_opt(get_spec(data, "release_date"@), "date"@)),
        windows: bool_of(get_opt(platforms, "windows"@)) == Some(true),
        mac: bool_of(get_opt(platforms, "mac"@)) == Some(true),
        linux: bool_of(get_opt(platforms, "linux"@)) == Some(true),
        categories: fields_in(list_at(data, "categories"@), "description"@),
        genres: fields_in(list_at(data, "genres"@), "description"@),
        screenshots: fields_in(list_at(data, "screenshots"@), "path_full"@),
        pc_requirements: requirements_json(get_spec(data, "pc_requirements"@)),
    }
}

fn strings_from(items: &Vec<Json>) -> (r: Vec<String>)
    ensures
        r.deep_view() == strings_in(items@),
{
    let mut out: Vec<String> = Vec::new();
    let mut i: usize = 0;
    assert(items@.take(0) =~= Seq::<Json>::empty());
    while i < items.len()
        invariant
            i <= items.len(),
            out.deep_view() == strings_in(items@.take(i as int)),
        decreases items.len() - i,
    {
        assert(items@.take(i + 1).drop_last() =~= items@.take(i as int));
        assert(items@.take(i + 1).last() == items@[i as int]);
        let t = as_str(Some(&items[i]));
        match t {
            Some(x) => {
                let ghost before = out.deep_view();
                out.push(x);
                assert(out.deep_view() =~= before.push(x@));
            },
            None => {},
        }
        i += 1;
    }
    assert(items@.take(items.len() as int) =~= items@);
    out
}

fn fields_from(items: &Vec<Json>, key: &str) -> (r: Vec<String>)
    ensures
        r.deep_view() == fields_in(items@, key@),
{
    let mut out: Vec<String> = Vec::new();
    let mut i: usize = 0;
    assert(items@.take(0) =~= Seq::<Json>::empty());
    while i < items.len()
        invariant
            i <= items.len(),
            out.deep_view() == fields_in(items@.take(i as int), key@),
        decreases items.len() - i,
    {
        assert(items@.take(i + 1).drop_last() =~= items@.take(i as int));
        assert(items@.take(i + 1).last() == items@[i as int]);
        let t = as_str(get(&items[i], key));
        match t {
            Some(x) => {
                let ghost before = out.deep_view();
                out.push(x);
                assert(out.deep_view() =~= before.push(x@));
            },
            None => {},
        }
        i += 1;
    }
    assert(items@.take(items.len() as int) =~= items@);
    out
}

fn list_strings(data: &Json, field: &str) -> (r: Vec<String>)
    ensures
        r.deep_view() == strings_in(list_at(*data, field@)),
{
    match as_array(get(data, field)) {
        Some(a) => strings_from(a),
        None => Vec::new(),
    }
}

fn list_fields(data: &Json, field: &str, key: &str) -> (r: Vec<String>)
    ensures
        r.deep_view() == fields_in(list_at(*data, field@), key@),
{
    match as_array(get(data, field)) {
        Some(a) => fields_from(a, key),
        None => Vec::new(),
    }
}

fn requirements_from(v: Option<&Json>) -> (r: PcRequirements)
    ensures
        r@ == requirements_json(deref_opt(v)),
{
    match v {
        None => PcRequirements::Missing,
        Some(Json::Object(es)) => PcRequirements::Object {
            minimum: as_str(member(es, "minimum")),
            recommended: as_str(member(es, "recommended")),
        },
        Some(Json::Array(a)) => {
            let ghost want = a@.map_values(|e: Json| requirement_entry_of(e));
            let mut out: Vec<RequirementEntry> = Vec::new();
            let mut i: usize = 0;
            while i < a.len()
                invariant
                    i <= a.len(),
                    want == a@.map_values(|e: Json| requirement_entry_of(e)),
                    entries_view(out@) == want.take(i as int),
                decreases a.len() - i,
            {
                let e = RequirementEntry {
                    title: as_str(get(&a[i], "title")),
                    requirements: as_str(get(&a[i], "requirements")),
                };
                let ghost before = out@;
                out.push(e);
                assert(entries_view(out@) =~= entries_view(before).push(want[i as int]));
                assert(want.take(i + 1) =~= want.take(i as int).push(want[i as int]));
                i += 1;
            }
            assert(want.take(a.len() as int) =~= want);
            PcRequirements::List(out)
        },
        Some(_) => PcRequirements::Other,
    }
}

fn flag_set(platforms: Option<&Json>, key: &str) -> (r: bool)
    ensures
        r == (bool_of(get_opt(deref_opt(platforms), key@)) == Some(true)),
{
    match as_bool(get_in(platforms, key)) {
        Some(b) => b,
        None => false,
    }
}

/// The Windows minimum/recommended requirement blobs of a
/// `pc_requirements` value: an object's `minimum` and `recommended`, or
/// what the list's titled entries give.
pub fn parse_pc_requirements(value: Option<&Json>) -> (r: (Option<String>, Option<String>))
    ensures
        (r.0.deep_view(), r.1.deep_view()) == pc_requirements_of(requirements_json(deref_opt(value))),
{
    requirement_blobs(&requirements_from(value))
}

/// The appdetails `data` object in plain values.
pub fn app_data_from_json(data: &Json) -> (r: SteamAppData)
    ensures
        r@ == app_data_spec(*data),
{
    let platforms = get(data, "platforms");
    let r = SteamAppData {
        short_description: as_str(get(data, "short_description")),
        detailed_description: as_str(get(data, "detailed_description")),
        developers: list_strings(data, "developers"),
        publishers: list_strings(data, "publishers"),
        release_date: as_str(get_in(get(data, "release_date"), "date")),
        windows: flag_set(platforms, "windows"),
        mac: flag_set(platforms, "mac"),
        linux: flag_set(platforms, "linux"),
        categories: list_fields(data, "categories", "description"),
        genres: list_fields(data, "genres", "description"),
        screenshots: list_fields(data, "screenshots", "path_full"),
        pc_requirements: requirements_from(get(data, "pc_requirements")),
    };
    r
}

/// The appdetails `data` object of an app in a reply body.
pub open spec fn details_reply_spec(body: Seq<char>, app_id: u64) -> Option<Json> {
    match parsed_json(body) {
        Some(v) => get_opt(get_spec(v, crate::text::decimal(app_id as nat)), "data"@),
        None => None,
    }
}

/// Steam details from an appdetails reply: its `<app id>.data` object read
/// as `steam_details_from` reads it; `None` when the reply is not JSON or
/// holds no such object.
pub fn steam_details_from_reply(body: &str, app_id: u64) -> (r: Option<SteamDetails>)
    ensures
        match details_reply_spec(body@, app_id) {
            Some(d) => r matches Some(x) && x@ == steam_details_of(app_data_spec(d)),
            None => r is None,
        },
{
    match crate::json::parse_json(body) {
        None => None,
        Some(v) => {
            let key = app_id_text(app_id);
            match get_in(get(&v, key.as_str()), "data") {
                Some(d) => {
                    let a = app_data_from_json(d);
                    Some(steam_details_from(&a))
                },
                None => None,
            }
        },
    }
}

/// Store-search hits as (id, name), in order; `None` when any hit lacks
/// either.
pub open spec fn hits_in(items: Seq<Json>) -> Option<Seq<(u64, Seq<char>)>>
    decreases items.len(),
{
    if items.len() == 0 {
        Some(Seq::empty())
    } else {
        match hits_in(items.drop_last()) {
            Some(prev) => match (
                u64_of(get_spec(items.last(), "id"@)),
                str_of(get_spec(items.last(), "name"@)),
            ) {
                (Some(id), Some(n)) => Some(prev.push((id, n))),
                _ => None,
            },
            None => None,
        }
    }
}

proof fn lemma_hits_none(items: Seq<Json>, i: int)
    requires
        0 <= i <= items.len(),
        hits_in(items.take(i)) is None,
    ensures
        hits_in(items) is None,
    decreases items.len() - i,
{
    if i < items.len() {
        assert(items.take(i + 1).drop_last() =~= items.take(i));
        lemma_hits_none(items, i + 1);
    } else {
        assert(items.take(i) =~= items);
    }
}

fn hits_from(items: &Vec<Json>) -> (r: Option<Vec<(u64, String)>>)
    ensures
        match r {
            Some(h) => hits_in(items@) == Some(hits_view(h@)),
            None => hits_in(items@) is None,
        },
{
    let mut out: Vec<(u64, String)> = Vec::new();
    let mut i: usize = 0;
    assert(items@.take(0) =~= Seq::<Json>::empty());
    assert(hits_view(out@) =~= Seq::<(u64, Seq<char>)>::empty());
    while i < items.len()
        invariant
            i <= items.len(),
            hits_in(items@.take(i as int)) == Some(hits_view(out@)),
        decreases items.len() - i,
    {
        assert(items@.take(i + 1).drop_last() =~= items@.take(i as int));
        assert(items@.take(i + 1).last() == items@[i as int]);
        let id = as_u64(get(&items[i], "id"));
        let name = as_str(get(&items[i], "name"));
        match (id, name) {
            (Some(n), Some(t)) => {
                let ghost before = out@;
                out.push((n, t));
                assert(hits_view(out@) =~= hits_view(before).push((n, t@)));
            },
            _ => {
                proof {
                    lemma_hits_none(items@, i + 1);
                }
                return None;
            },
        }
        i += 1;
    }
    assert(items@.take(items.len() as int) =~= items@);
    Some(out)
}

/// The hits of a store-search reply body.
pub open spec fn search_reply_spec(body: Seq<char>) -> Option<Seq<(u64, Seq<char>)>> {
    match parsed_json(body) {
        Some(v) => match items_of(get_spec(v, "items"@)) {
            Some(a) => hits_in(a),
            None => None,
        },
        None => None,
    }
}

/// The app `pick_steam_app` picks for a title among hits.
pub open spec fn picked_app(title: Seq<char>, hits: Seq<(u64, Seq<char>)>) -> Option<u64> {
    if crate::matching::normalize_spec(title).len() == 0 {
        None
    } else {
        match pick_from(title, hits) {
            Some(b) => Some(b.1),
            None => None,
        }
    }
}

/// The Steam app a store-search reply names for a title: the hits read
/// from its `items` (every hit with a numeric `id` and a string `name`),
/// then picked as `pick_steam_app` picks.
pub fn app_from_search_reply(title: &str, body: &str) -> (r: Option<u64>)
    ensures
        r == match search_reply_spec(body@) {
            Some(h) => picked_app(title@, h),
            None => None,
        },
{
    match crate::json::parse_json(body) {
        None => None,
        Some(v) => match as_array(get(&v, "items")) {
            None => None,
            Some(a) => match hits_from(a) {
                None => None,
                Some(h) => pick_steam_app(title, &h),
            },
        },
    }
}

/// The votes of one SteamSpy tag value (`vote_count` of its text and its
/// number).
pub open spec fn vote_of(j: Json) -> u64 {
    let number = match u64_of(Some(j)) {
        Some(n) => n,
        None => 0,
    };
    match str_of(Some(j)) {
        Some(t) => match crate::text::parse_u64_spec(t) {
            Some(n) => n,
            None => number,
        },
        None => number,
    }
}

pub open spec fn spy_votes(es: Seq<(String, Json)>) -> Seq<(Seq<char>, u64)> {
    es.map_values(|e: (String, Json)| (e.0@, vote_of(e.1)))
}

/// The ranked tags of a SteamSpy reply body.
pub open spec fn spy_reply_spec(body: Seq<char>) -> Option<Seq<Seq<char>>> {
    match parsed_json(body) {
        Some(v) => match members_of(get_spec(v, "tags"@)) {
            Some(es) => spy_tags_spec(spy_votes(es)),
            None => None,
        },
        None => None,
    }
}

/// SteamSpy's tags from a reply body: the `tags` object's members with
/// their votes, ranked as `rank_spy_tags` ranks them.
pub fn spy_tags_from_reply(body: &str) -> (r: Option<Vec<String>>)
    ensures
        r.deep_view() == spy_reply_spec(body@),
{
    match crate::json::parse_json(body) {
        None => None,
        Some(v) => match as_object(get(&v, "tags")) {
            None => None,
            Some(es) => {
                let ghost want = spy_votes(es@);
                let mut votes: Vec<(String, u64)> = Vec::new();
                let mut i: usize = 0;
                while i < es.len()
                    invariant
                        i <= es.len(),
                        want == spy_votes(es@),
                        spy_view(votes@) == want.take(i as int),
                    decreases es.len() - i,
                {
                    let (k, x) = &es[i];
                    let t = as_str(Some(x));
                    let n = match &t {
                        Some(s) => vote_count(Some(s.as_str()), as_u64(Some(x))),
                        None => vote_count(None, as_u64(Some(x))),
                    };
                    let ghost before = votes@;
                    votes.push((string_of(&chars_of(k.as_str())), n));
                    assert(spy_view(votes@) =~= spy_view(before).push(want[i as int]));
                    assert(want.take(i + 1) =~= want.take(i as int).push(want[i as int]));
                    i += 1;
                }
                assert(want.take(es.len() as int) =~= want);
                rank_spy_tags(&votes)
            },
        },
    }
}

} // verus!

verus! {

// ---------------------------------------------------------------------------
// The listing
// ---------------------------------------------------------------------------

/// Everything known about a matched game before enrichment.
pub struct EnrichmentInput {
    pub normalized_title: String,
    pub raw_title: String,
    pub best_download: DownloadCandidate,
    pub candidates: Vec<DownloadCandidate>,
    pub steam_app_id: Option<u64>,
    /// Steam storefront base for appdetails/storesearch.
    pub steam_store_api: Option<String>,
    /// SteamSpy base for real user tags.
    pub steamspy_api: Option<String>,
    /// HEAD-verify image URLs against Steam's CDN before publishing.
    pub verify_images: bool,
    /// Details scraped from the source game page(s).
    pub page_details: Option<SourcePageDetails>,
}

pub struct EnrichmentInputV {
    pub normalized_title: Seq<char>,
    pub raw_title: Seq<char>,
    pub best_download: crate::models::DownloadCandidateV,
    pub candidates: Seq<crate::models::DownloadCandidateV>,
    pub steam_app_id: Option<u64>,
    pub steam_store_api: Option<Seq<char>>,
    pub steamspy_api: Option<Seq<char>>,
    pub verify_images: bool,
    pub page_details: Option<crate::models::SourcePageDetailsV>,
}

impl View for EnrichmentInput {
    type V = EnrichmentInputV;

    open spec fn view(&self) -> EnrichmentInputV {
        EnrichmentInputV {
            normalized_title: self.normalized_title@,
            raw_title: self.raw_title@,
            best_download: self.best_download@,
            candidates: crate::downloads::cands_view(self.candidates@),
            steam_app_id: self.steam_app_id,
            steam_store_api: self.steam_store_api.deep_view(),
            steamspy_api: self.steamspy_api.deep_view(),
            verify_images: self.verify_images,
            page_details: match self.page_details {
                Some(p) => Some(p@),
                None => None,
            },
        }
    }
}

fn copy_candidates(v: &Vec<DownloadCandidate>) -> (r: Vec<DownloadCandidate>)
    ensures
        crate::downloads::cands_view(r@) == crate::downloads::cands_view(v@),
{
    let mut r: Vec<DownloadCandidate> = Vec::new();
    let mut i: usize = 0;
    while i < v.len()
        invariant
            i <= v.len(),
            r.len() == i,
            forall|k: int| 0 <= k < i ==> #[trigger] r@[k]@ == v@[k]@,
        decreases v.len() - i,
    {
        r.push(v[i].duplicate());
        i += 1;
    }
    assert(crate::downloads::cands_view(r@) =~= crate::downloads::cands_view(v@));
    r
}

/// A copy of the input with the raw title entity-decoded (the single choke
/// point that keeps entities out of copy).
pub fn decodable_game(game: &EnrichmentInput) -> (r: EnrichmentInput)
    ensures
        r@ == (EnrichmentInputV {
            raw_title: crate::scraper::decode_entities_spec(game@.raw_title),
            ..game@
        }),
{
    let decoded = crate::scraper::decode_entities(game.raw_title.as_str());
    EnrichmentInput {
        normalized_title: game.normalized_title.clone(),
        raw_title: decoded,
        best_download: game.best_download.duplicate(),
        candidates: copy_candidates(&game.candidates),
        steam_app_id: game.steam_app_id,
        steam_store_api: crate::models::copy_opt_string(&game.steam_store_api),
        steamspy_api: crate::models::copy_opt_string(&game.steamspy_api),
        verify_images: game.verify_images,
        page_details: match &game.page_details {
            Some(p) => Some(p.duplicate()),
            None => None,
        },
    }
}

/// What the Steam lookups returned: the app the title resolved to (used
/// when the input names none), its details, its SteamSpy tags and the HEAD
/// checks of its image candidates.
pub struct SteamLookup {
    pub resolved_app_id: Option<u64>,
    pub details: Option<SteamDetails>,
    pub spy_tags: Option<Vec<String>>,
    pub image_checks: ImageChecks,
}

/// A lookup that found nothing (Steam unreachable or the title unknown).
pub fn unresolved_lookup() -> (r: SteamLookup)
    ensures
        r.resolved_app_id is None,
        r.details is None,
        r.spy_tags is None,
        !r.image_checks.cover_main && !r.image_checks.cover_fallback,
        !r.image_checks.hero_main && !r.image_checks.hero_fallback,
        r.image_checks.screenshots@.len() == 0,
{
    SteamLookup {
        resolved_app_id: None,
        details: None,
        spy_tags: None,
        image_checks: ImageChecks {
            cover_main: false,
            cover_fallback: false,
            hero_main: false,
            hero_fallback: false,
            screenshots: Vec::new(),
        },
    }
}

/// `acc` extended by the tags not already in it (ignoring ASCII case).
pub open spec fn add_guesses(acc: Seq<Seq<char>>, tags: Seq<Seq<char>>) -> Seq<Seq<char>>
    decreases tags.len(),
{
    if tags.len() == 0 {
        acc
    } else {
        let prev = add_guesses(acc, tags.drop_last());
        let t = tags.last();
        if exists|j: int| 0 <= j < prev.len() && crate::text::eq_ignore_case(#[trigger] prev[j], t) {
            prev
        } else {
            prev.push(t)
        }
    }
}

/// Consecutive repeats removed (`Vec::dedup`).
pub open spec fn dedup_spec(s: Seq<Seq<char>>) -> Seq<Seq<char>>
    decreases s.len(),
{
    if s.len() == 0 {
        Seq::empty()
    } else {
        let p = dedup_spec(s.drop_last());
        if p.len() > 0 && p.last() == s.last() {
            p
        } else {
            p.push(s.last())
        }
    }
}

/// Requirements HTML as formatted plain text.
pub open spec fn formatted_reqs(h: Seq<char>) -> Seq<char> {
    format_requirements_spec(strip_html_spec(h))
}

pub open spec fn not_specified_text() -> Seq<char> {
    "Not specified. Any modern mid-range PC that meets the minimum requirements will run the game comfortably."@
}

/// Minimum requirements: Steam's, else the page's, each formatted and kept
/// only with 10+ characters; the default text otherwise.
pub open spec fn minimum_spec(steam: Option<Seq<char>>, page: Option<Seq<char>>) -> Seq<char> {
    match steam {
        Some(h) if formatted_reqs(h).len() >= 10 => formatted_reqs(h),
        _ => match page {
            Some(h) if formatted_reqs(h).len() >= 10 => formatted_reqs(h),
            _ => default_minimum_text(),
        },
    }
}

pub open spec fn recommended_spec(steam: Option<Seq<char>>) -> Seq<char> {
    match steam {
        Some(h) if trim(formatted_reqs(h)).len() > 0 => formatted_reqs(h),
        _ => not_specified_text(),
    }
}

pub open spec fn shot_alts(alt: Seq<char>, n: nat) -> Seq<Seq<char>> {
    Seq::new(n, |i: int| alt + " gameplay screenshot "@ + crate::text::decimal((i + 1) as nat))
}

/// The enrichment decisions, given what the Steam lookups returned.
pub open spec fn enriched_spec(game: EnrichmentInputV, lookup: SteamLookup) -> crate::models::EnrichedGameV {
    let title = crate::scraper::decode_entities_spec(game.raw_title);
    let app_id = match game.steam_app_id {
        Some(id) => Some(id),
        None => lookup.resolved_app_id,
    };
    let steam = if app_id is Some {
        match lookup.details {
            Some(d) => d@,
            None => no_steam_details(),
        }
    } else {
        no_steam_details()
    };
    let spy = if app_id is Some {
        match lookup.spy_tags {
            Some(t) => t.deep_view(),
            None => Seq::empty(),
        }
    } else {
        Seq::empty()
    };
    let page = match game.page_details {
        Some(p) => p,
        None => crate::models::empty_details(),
    };
    let details = merge_spec(steam, page);
    let images = match app_id {
        Some(id) => images_spec(id, details.screenshots, game.verify_images, lookup.image_checks),
        None => no_images(),
    };
    let category_guess = match first_of(details.genres) {
        Some(g) => Some(g),
        None => category_from_tags_from(details.categories, 0),
    };
    let tags = if spy.len() > 0 {
        spy
    } else {
        crate::text::take_seq(dedup_spec(details.categories + details.genres), 15)
    };
    let alt = capitalize_spec(strip_html_spec(title));
    let version = display_version_spec(game.best_download.version, page.version);
    let links = download_links_spec(page, version);
    let seo = crate::seo::build_listing_spec(
        crate::seo::SeoInputV {
            title: title,
            version: if version.len() > 0 && crate::text::is_digit(version[0]) {
                Some(version)
            } else {
                None
            },
            source_label: game.best_download.source_label,
            steam_blurb: details.description,
            developer: details.developer,
            publisher: details.publisher,
            release_date: details.release_date,
            platforms: platforms_or_windows(details.platforms),
            tags: tags,
            category: category_guess,
        },
    );
    crate::models::EnrichedGameV {
        raw_title: title,
        listing_title: listing_title_spec(title),
        description: seo.description,
        article_md: seo.article_md,
        developer: details.developer,
        publisher: details.publisher,
        release_date: details.release_date,
        platforms: platforms_or_windows(details.platforms),
        category_guess: category_guess,
        category_guesses: add_guesses(details.genres, crate::text::take_seq(spy, 6)),
        tags: tags,
        cover_image_url: images.cover,
        cover_alt: match images.cover {
            Some(_) => Some(alt + " cover art"@),
            None => None,
        },
        hero_image_url: images.hero,
        featured_image_url: images.featured,
        featured_image_alt: match images.featured {
            Some(_) => Some(alt + " featured artwork"@),
            None => None,
        },
        screenshot_urls: images.screenshots,
        screenshot_alts: shot_alts(alt, images.screenshots.len()),
        minimum: Some(minimum_spec(details.minimum, page.minimum)),
        recommended: Some(recommended_spec(details.recommended)),
        version: Some(version),
        file_size: Some(
            match page.file_size {
                Some(f) => f,
                None => "See download page for exact size"@,
            },
        ),
        storage: Some("10 GB available space"@),
        instructions: seq![
            "Click the Download button on this page and save the file."@,
            "Extract the archive if prompted (no extra software needed)."@,
            "Run the setup and let it install. The game comes pre-installed and patched."@,
            "Launch "@ + crate::seo::ascii_punct(collapse_ws(title)) + " and play."@,
        ],
        download_links: links,
        source_url: if links.len() > 0 {
            Some(links[0].url)
        } else {
            None
        },
        license_type: license_text(),
        seo_title: seo.seo_title,
        seo_description: seo.seo_description,
        steam_app_id: app_id,
        published_at: None,
    }
}

fn category_guesses_of(genres: &Vec<String>, spy: &Vec<String>) -> (r: Vec<String>)
    ensures
        r.deep_view() == add_guesses(genres.deep_view(), crate::text::take_seq(spy.deep_view(), 6)),
{
    let mut out = crate::models::copy_strings(genres);
    let n: usize = if spy.len() < 6 {
        spy.len()
    } else {
        6
    };
    let ghost sv = crate::text::take_seq(spy.deep_view(), 6);
    let mut i: usize = 0;
    assert(sv.take(0) =~= Seq::<Seq<char>>::empty());
    while i < n
        invariant
            i <= n <= spy.len(),
            n == sv.len(),
            sv == crate::text::take_seq(spy.deep_view(), 6),
            out.deep_view() == add_guesses(genres.deep_view(), sv.take(i as int)),
        decreases n - i,
    {
        assert(sv.take(i + 1).drop_last() =~= sv.take(i as int));
        assert(sv.take(i + 1).last() == spy@[i as int]@);
        let tag = &spy[i];
        let ghost prev = out.deep_view();
        let mut k: usize = 0;
        let mut seen = false;
        while k < out.len()
            invariant
                k <= out.len(),
                prev == out.deep_view(),
                seen == exists|j: int| 0 <= j < k && crate::text::eq_ignore_case(#[trigger] prev[j], tag@),
            decreases out.len() - k,
        {
            if crate::text::eq_ignore_ascii_case(out[k].as_str(), tag.as_str()) {
                assert(crate::text::eq_ignore_case(prev[k as int], tag@));
                seen = true;
            }
            k += 1;
        }
        if !seen {
            out.push(tag.clone());
            assert(out.deep_view() =~= prev.push(tag@));
        }
        i += 1;
    }
    assert(sv.take(n as int) =~= sv);
    out
}

fn tags_of(spy: &Vec<String>, categories: &Vec<String>, genres: &Vec<String>) -> (r: Vec<String>)
    ensures
        r.deep_view() == if spy.len() > 0 {
            spy.deep_view()
        } else {
            crate::text::take_seq(dedup_spec(categories.deep_view() + genres.deep_view()), 15)
        },
{
    if spy.len() > 0 {
        return crate::models::copy_strings(spy);
    }
    let mut combined = crate::models::copy_strings(categories);
    let mut more = crate::models::copy_strings(genres);
    let ghost all = categories.deep_view() + genres.deep_view();
    combined.append(&mut more);
    assert(combined.deep_view() =~= all);
    let mut d: Vec<String> = Vec::new();
    let mut i: usize = 0;
    assert(all.take(0) =~= Seq::<Seq<char>>::empty());
    while i < combined.len()
        invariant
            i <= combined.len(),
            all == combined.deep_view(),
            d.deep_view() == dedup_spec(all.take(i as int)),
        decreases combined.len() - i,
    {
        assert(all.take(i + 1).drop_last() =~= all.take(i as int));
        assert(all.take(i + 1).last() == combined@[i as int]@);
        let ghost prev = d.deep_view();
        let repeat = d.len() > 0 && crate::text::str_eq(d[d.len() - 1].as_str(), combined[i].as_str());
        if !repeat {
            d.push(combined[i].clone());
            assert(d.deep_view() =~= prev.push(combined@[i as int]@));
        } else {
            assert(prev.last() == d@[d.len() - 1]@);
        }
        i += 1;
    }
    assert(all.take(combined.len() as int) =~= all);
    crate::text::take_strings(&d, 15)
}

fn formatted_reqs_exec(h: &String) -> (r: String)
    ensures
        r@ == formatted_reqs(h@),
{
    format_requirements(strip_html(h.as_str()).as_str())
}

fn minimum_of(steam: &Option<String>, page: &Option<String>) -> (r: String)
    ensures
        r@ == minimum_spec(steam.deep_view(), page.deep_view()),
{
    match steam {
        Some(h) => {
            let f = formatted_reqs_exec(h);
            if chars_of(f.as_str()).len() >= 10 {
                return f;
            }
        },
        None => {},
    }
    match page {
        Some(h) => {
            let f = formatted_reqs_exec(h);
            if chars_of(f.as_str()).len() >= 10 {
                return f;
            }
        },
        None => {},
    }
    String::from_str("OS: Windows 10 64-bit\nMemory: 4 GB RAM\nStorage: 10 GB available space")
}

fn recommended_of(steam: &Option<String>) -> (r: String)
    ensures
        r@ == recommended_spec(steam.deep_view()),
{
    match steam {
        Some(h) => {
            let f = formatted_reqs_exec(h);
            if trimmed_vec(&chars_of(f.as_str())).len() > 0 {
                return f;
            }
        },
        None => {},
    }
    String::from_str(
        "Not specified. Any modern mid-range PC that meets the minimum requirements will run the game comfortably.",
    )
}

fn shot_alts_of(alt: &Vec<char>, n: usize) -> (r: Vec<String>)
    ensures
        r.deep_view() == shot_alts(alt@, n as nat),
{
    let mut out: Vec<String> = Vec::new();
    let mut i: usize = 0;
    while i < n
        invariant
            i <= n,
            out.len() == i,
            forall|k: int| 0 <= k < i ==> #[trigger] out@[k]@ == alt@ + " gameplay screenshot "@
                + crate::text::decimal((k + 1) as nat),
        decreases n - i,
    {
        let mut a = crate::text::vec_of_range(alt, 0, alt.len());
        assert(a@ =~= alt@);
        push_str_vec(&mut a, " gameplay screenshot ");
        push_vec(&mut a, &crate::text::decimal_vec((i as u64) + 1));
        out.push(string_of(&a));
        i += 1;
    }
    assert(out.deep_view() =~= shot_alts(alt@, n as nat));
    out
}

fn alt_with(alt: &Vec<char>, suffix: &str) -> (r: String)
    ensures
        r@ == alt@ + suffix@,
{
    let mut a = crate::text::vec_of_range(alt, 0, alt.len());
    assert(a@ =~= alt@);
    push_str_vec(&mut a, suffix);
    string_of(&a)
}

} // verus!

verus! {

fn opt_as_str(o: &Option<String>) -> (r: Option<&str>)
    ensures
        crate::seo::opt_str(r) == o.deep_view(),
{
    match o {
        Some(s) => Some(s.as_str()),
        None => None,
    }
}

/// The platforms a listing names (`platforms_or_windows`).
fn platforms_for(p: &Option<Vec<String>>) -> (r: Vec<String>)
    ensures
        r.deep_view() == platforms_or_windows(p.deep_view()),
        crate::text::strs_view(r@) == platforms_or_windows(p.deep_view()),
{
    let r = match p {
        Some(l) if l.len() > 0 => crate::models::copy_strings(l),
        _ => vec![String::from_str("Windows")],
    };
    assert(r.deep_view() =~= platforms_or_windows(p.deep_view()));
    assert(crate::text::strs_view(r@) =~= r.deep_view());
    r
}

/// Enrich a matched game into a complete listing, given what the Steam
/// lookups returned. Images come only from Steam's CDN, and only when an
/// app is known; the page details supply the download links, size and
/// whatever Steam lacks; every publish-gated field gets a valid fallback.
#[verifier::rlimit(100)]
#[verifier::spinoff_prover]
pub fn build_enriched(game: &EnrichmentInput, lookup: &SteamLookup) -> (r: EnrichedGame)
    ensures
        r@ == enriched_spec(game@, *lookup),
{
    let g = decodable_game(game);
    let app_id = match g.steam_app_id {
        Some(id) => Some(id),
        None => lookup.resolved_app_id,
    };
    let steam = match app_id {
        Some(_) => match &lookup.details {
            Some(d) => d.duplicate(),
            None => SteamDetails::default(),
        },
        None => SteamDetails::default(),
    };
    let spy = match app_id {
        Some(_) => match &lookup.spy_tags {
            Some(t) => crate::models::copy_strings(t),
            None => Vec::new(),
        },
        None => Vec::new(),
    };
    assert(spy.deep_view() =~= if app_id is Some {
        match lookup.spy_tags {
            Some(t) => t.deep_view(),
            None => Seq::<Seq<char>>::empty(),
        }
    } else {
        Seq::<Seq<char>>::empty()
    });
    let page = match &g.page_details {
        Some(p) => p.duplicate(),
        None => SourcePageDetails::default(),
    };
    let details = merge_page_details(steam, &page);
    let images = match app_id {
        Some(id) => {
            let c = image_candidates(id, &details.screenshots);
            images_from_steam(&c, g.verify_images, &lookup.image_checks)
        },
        None => ImageSet::default(),
    };
    let category_guess = if details.genres.len() > 0 {
        Some(details.genres[0].clone())
    } else {
        category_from_tags(&details.categories)
    };
    let category_guesses = category_guesses_of(&details.genres, &spy);
    let tags = tags_of(&spy, &details.categories, &details.genres);
    let alt = capitalize_vec(&strip_html_vec(&chars_of(g.raw_title.as_str())));
    let cover_alt = match &images.cover {
        Some(_) => Some(alt_with(&alt, " cover art")),
        None => None,
    };
    let featured_image_alt = match &images.featured {
        Some(_) => Some(alt_with(&alt, " featured artwork")),
        None => None,
    };
    let screenshot_alts = shot_alts_of(&alt, images.screenshots.len());
    let minimum = minimum_of(&details.minimum, &page.minimum);
    let recommended = recommended_of(&details.recommended);
    let version = display_version(&g.best_download.version, &page);
    let download_links = download_links_for(&page, version.as_str());
    let source_url = if download_links.len() > 0 {
        Some(download_links[0].url.clone())
    } else {
        None
    };
    let vv = chars_of(version.as_str());
    let seo_version = if vv.len() > 0 && crate::text::is_ascii_digit(vv[0]) {
        Some(version.as_str())
    } else {
        None
    };
    let platforms = platforms_for(&details.platforms);
    assert(crate::text::strs_view(platforms@) =~= platforms.deep_view());
    assert(crate::text::strs_view(tags@) =~= tags.deep_view());
    let seo = crate::seo::build_listing(
        &crate::seo::SeoInput {
            title: g.raw_title.as_str(),
            version: seo_version,
            source_label: &g.best_download.source_label,
            steam_blurb: opt_as_str(&details.description),
            developer: opt_as_str(&details.developer),
            publisher: opt_as_str(&details.publisher),
            release_date: opt_as_str(&details.release_date),
            platforms: platforms.as_slice(),
            tags: tags.as_slice(),
            category: opt_as_str(&category_guess),
        },
    );
    let instructions = crate::seo::install_steps(g.raw_title.as_str());
    assert(instructions.deep_view() =~= enriched_spec(game@, *lookup).instructions);
    let listing_title = listing_title(g.raw_title.as_str());
    let license_type = license_type_for(&g.best_download.source_label);
    let file_size = match &page.file_size {
        Some(f) => f.clone(),
        None => String::from_str("See download page for exact size"),
    };
    let r = EnrichedGame {
        raw_title: g.raw_title,
        listing_title,
        description: seo.description,
        article_md: seo.article_md,
        developer: details.developer,
        publisher: details.publisher,
        release_date: details.release_date,
        platforms,
        category_guess,
        category_guesses,
        tags,
        cover_image_url: images.cover,
        cover_alt,
        hero_image_url: images.hero,
        featured_image_url: images.featured,
        featured_image_alt,
        screenshot_urls: images.screenshots,
        screenshot_alts,
        minimum: Some(minimum),
        recommended: Some(recommended),
        version: Some(version),
        file_size: Some(file_size),
        storage: Some(String::from_str("10 GB available space")),
        instructions,
        download_links,
        source_url,
        license_type,
        seo_title: seo.seo_title,
        seo_description: seo.seo_description,
        steam_app_id: app_id,
        published_at: None,
    };
    r
}

} // verus!

verus! {

/// Every enriched listing has every field filled: a minimum of 10+
/// characters, recommended requirements that are not blank (a placeholder
/// when Steam has none), a version that is not blank, the page's file size
/// or a placeholder (not blank unless the page's is), the storage
/// placeholder "10 GB available space", a license of 3+ characters, four
/// install steps, a description of 30+ characters, an SEO description of at
/// most 320, and platforms ("Windows" when Steam names none).
pub proof fn lemma_enriched_fallbacks(game: EnrichmentInputV, lookup: SteamLookup)
    ensures
        enriched_spec(game, lookup).minimum matches Some(m) && m.len() >= 10,
        enriched_spec(game, lookup).version is Some,
        enriched_spec(game, lookup).file_size is Some,
        enriched_spec(game, lookup).storage is Some,
        enriched_spec(game, lookup).license_type.len() >= 3,
        enriched_spec(game, lookup).instructions.len() > 0,
        enriched_spec(game, lookup).description.len() >= 30,
        enriched_spec(game, lookup).seo_description.len() <= 320,
        enriched_spec(game, lookup).storage == Some("10 GB available space"@),
        enriched_spec(game, lookup).instructions.len() == 4,
        enriched_spec(game, lookup).recommended matches Some(r) && trim(r).len() > 0,
        enriched_spec(game, lookup).file_size == Some(
            match page_of(game).file_size {
                Some(f) => f,
                None => "See download page for exact size"@,
            },
        ),
        enriched_spec(game, lookup).platforms.len() > 0,
        enriched_spec(game, lookup).version matches Some(v) && trim(v).len() > 0,
        (page_of(game).file_size matches Some(f) ==> trim(f).len() > 0) ==> (enriched_spec(
            game,
            lookup,
        ).file_size matches Some(f) && trim(f).len() > 0),
{
    reveal_strlit("See download page for exact size");
    crate::text::lemma_nonblank_first("See download page for exact size"@);
    reveal_strlit("OS: Windows 10 64-bit\nMemory: 4 GB RAM\nStorage: 10 GB available space");
    reveal_strlit(
        "Not specified. Any modern mid-range PC that meets the minimum requirements will run the game comfortably.",
    );
    let ns = not_specified_text();
    crate::text::lemma_lead_ws(ns);
    crate::text::lemma_trail_ws(crate::text::trim_start(ns));
    assert(trim(ns).len() > 0);
    reveal_strlit(
        "Full PC game release, free to download and play; download verified working before listing",
    );
    let e = enriched_spec(game, lookup);
    let title = crate::scraper::decode_entities_spec(game.raw_title);
    let app_id = match game.steam_app_id {
        Some(id) => Some(id),
        None => lookup.resolved_app_id,
    };
    let steam = if app_id is Some {
        match lookup.details {
            Some(d) => d@,
            None => no_steam_details(),
        }
    } else {
        no_steam_details()
    };
    let spy = if app_id is Some {
        match lookup.spy_tags {
            Some(t) => t.deep_view(),
            None => Seq::empty(),
        }
    } else {
        Seq::empty()
    };
    let page = match game.page_details {
        Some(p) => p,
        None => crate::models::empty_details(),
    };
    let details = merge_spec(steam, page);
    let category_guess = match first_of(details.genres) {
        Some(g) => Some(g),
        None => category_from_tags_from(details.categories, 0),
    };
    let tags = if spy.len() > 0 {
        spy
    } else {
        crate::text::take_seq(dedup_spec(details.categories + details.genres), 15)
    };
    let version = display_version_spec(game.best_download.version, page.version);
    lemma_display_version_nonblank(game.best_download.version, page.version);
    crate::seo::lemma_bundle_lengths(
        crate::seo::SeoInputV {
            title: title,
            version: if version.len() > 0 && crate::text::is_digit(version[0]) {
                Some(version)
            } else {
                None
            },
            source_label: game.best_download.source_label,
            steam_blurb: details.description,
            developer: details.developer,
            publisher: details.publisher,
            release_date: details.release_date,
            platforms: platforms_or_windows(details.platforms),
            tags: tags,
            category: category_guess,
        },
    );
}

/// The page details of an input (empty without any).
pub open spec fn page_of(game: EnrichmentInputV) -> crate::models::SourcePageDetailsV {
    match game.page_details {
        Some(p) => p,
        None => crate::models::empty_details(),
    }
}

/// Steam's image CDN.
pub open spec fn steam_cdn() -> Seq<char> {
    "https://cdn.cloudflare.steamstatic.com/steam/apps/"@
}

proof fn lemma_cdn_prefix(id: u64)
    ensures
        forall|rest: Seq<char>| #[trigger] crate::text::starts_with(cdn_base(id) + rest, steam_cdn()),
{
    assert forall|rest: Seq<char>| #[trigger] crate::text::starts_with(cdn_base(id) + rest, steam_cdn()) by {
        let s = cdn_base(id) + rest;
        assert(s.take(steam_cdn().len() as int) =~= steam_cdn());
    }
}

/// Images come only from Steam: a game Steam cannot resolve gets no images
/// at all, and the cover and hero are always on Steam's CDN (never
/// source-site artwork). The download links are exactly the page's first
/// four file-host URLs that are at most 2000 bytes long, in order, each for
/// Windows with the listing's version and the page's file size; the first
/// page URL, when kept, is the "Direct Download", and the source URL is the
/// first link's.
pub proof fn lemma_enriched_sources(game: EnrichmentInputV, lookup: SteamLookup)
    ensures
        game.steam_app_id is None && lookup.resolved_app_id is None ==> {
            let e = enriched_spec(game, lookup);
            &&& e.cover_image_url is None
            &&& e.hero_image_url is None
            &&& e.featured_image_url is None
            &&& e.screenshot_urls.len() == 0
        },
        enriched_spec(game, lookup).download_links.len() <= 4,
        forall|k: int| 0 <= k < enriched_spec(game, lookup).download_links.len() ==> exists|j: int|
            0 <= j < page_of(game).download_urls.len() && (#[trigger] enriched_spec(game, lookup).download_links[k]).url
                == #[trigger] page_of(game).download_urls[j],
        enriched_spec(game, lookup).cover_image_url matches Some(u) ==> crate::text::starts_with(u, steam_cdn()),
        enriched_spec(game, lookup).hero_image_url matches Some(u) ==> crate::text::starts_with(u, steam_cdn()),
        enriched_spec(game, lookup).download_links.map_values(|l: crate::models::DownloadLinkV| l.url)
            == short_urls(page_of(game).download_urls.take(first_four(page_of(game).download_urls.len()))),
        forall|k: int| 0 <= k < enriched_spec(game, lookup).download_links.len() ==> {
            let l = #[trigger] enriched_spec(game, lookup).download_links[k];
            &&& l.platform == Some("Windows"@)
            &&& Some(l.version.unwrap()) == enriched_spec(game, lookup).version
            &&& l.version is Some
            &&& l.file_size == page_of(game).file_size
        },
        page_of(game).download_urls.len() > 0 && short_url(page_of(game).download_urls[0])
            ==> enriched_spec(game, lookup).download_links[0].label == "Direct Download"@,
        enriched_spec(game, lookup).source_url == if enriched_spec(game, lookup).download_links.len() > 0 {
            Some(enriched_spec(game, lookup).download_links[0].url)
        } else {
            None
        },
{
    match game.steam_app_id {
        Some(id) => lemma_cdn_prefix(id),
        None => match lookup.resolved_app_id {
            Some(id) => lemma_cdn_prefix(id),
            None => {},
        },
    }
    let page = match game.page_details {
        Some(p) => p,
        None => crate::models::empty_details(),
    };
    let version = display_version_spec(game.best_download.version, page.version);
    let n = if page.download_urls.len() < 4 {
        page.download_urls.len() as int
    } else {
        4
    };
    lemma_links_from(page, version, n);
    lemma_links_exact(page, version, n);
}

/// The screenshots Steam's details give a game whose app id is known (none
/// otherwise).
pub open spec fn steam_shots(game: EnrichmentInputV, lookup: SteamLookup) -> Seq<Seq<char>> {
    let app_id = match game.steam_app_id {
        Some(id) => Some(id),
        None => lookup.resolved_app_id,
    };
    if app_id is Some {
        match lookup.details {
            Some(d) => d@.screenshots,
            None => Seq::empty(),
        }
    } else {
        Seq::empty()
    }
}

proof fn lemma_checked_shots_from(shots: Seq<Seq<char>>, k: ImageChecks, n: int)
    requires
        0 <= n <= shots.len(),
    ensures
        checked_shots(shots, k, n).len() <= n,
        forall|a: int| 0 <= a < checked_shots(shots, k, n).len() ==> exists|j: int|
            0 <= j < n && #[trigger] checked_shots(shots, k, n)[a] == shots[j],
    decreases n,
{
    if n > 0 {
        lemma_checked_shots_from(shots, k, n - 1);
        let prev = checked_shots(shots, k, n - 1);
        let cur = checked_shots(shots, k, n);
        if shot_ok(k, n - 1) {
            assert(cur == prev.push(shots[n - 1]));
        } else {
            assert(cur == prev);
        }
        assert forall|a: int| 0 <= a < cur.len() implies exists|j: int|
            0 <= j < n && #[trigger] cur[a] == shots[j] by {
            if a < prev.len() {
                assert(cur[a] == prev[a]);
                let j = choose|j: int| 0 <= j < n - 1 && #[trigger] prev[a] == shots[j];
                assert(0 <= j < n && cur[a] == shots[j]);
            } else {
                assert(cur[a] == shots[n - 1]);
            }
        }
    }
}

/// The featured image and the screenshots come only from Steam: the
/// featured image is the first of Steam's first eight screenshots, and
/// every screenshot is one of those eight; a game Steam cannot resolve
/// has neither.
pub proof fn lemma_shots_from_steam(game: EnrichmentInputV, lookup: SteamLookup)
    ensures
        enriched_spec(game, lookup).featured_image_url == first_of(
            crate::text::take_seq(steam_shots(game, lookup), 8),
        ),
        enriched_spec(game, lookup).screenshot_urls.len() <= 8,
        forall|a: int| 0 <= a < enriched_spec(game, lookup).screenshot_urls.len() ==> exists|j: int|
            0 <= j < 8 && 0 <= j < steam_shots(game, lookup).len()
                && #[trigger] enriched_spec(game, lookup).screenshot_urls[a] == steam_shots(game, lookup)[j],
{
    let shots = steam_shots(game, lookup);
    let s8 = crate::text::take_seq(shots, 8);
    let e = enriched_spec(game, lookup);
    assert(s8.len() <= 8);
    assert forall|a: int| 0 <= a < s8.len() implies #[trigger] s8[a] == shots[a] && a < 8 by {}
    if game.verify_images {
        lemma_checked_shots_from(s8, lookup.image_checks, s8.len() as int);
    }
    let app_id = match game.steam_app_id {
        Some(id) => Some(id),
        None => lookup.resolved_app_id,
    };
    if app_id is Some {
        assert forall|a: int| 0 <= a < e.screenshot_urls.len() implies exists|j: int|
            0 <= j < 8 && 0 <= j < shots.len() && #[trigger] e.screenshot_urls[a] == shots[j] by {
            if game.verify_images {
                let j = choose|j: int|
                    0 <= j < s8.len() && #[trigger] checked_shots(s8, lookup.image_checks, s8.len() as int)[a]
                        == s8[j];
                assert(s8[j] == shots[j]);
            } else {
                assert(e.screenshot_urls[a] == s8[a]);
            }
        }
    }
}

/// The listing does not depend on the site a game was collected from: two
/// inputs that differ only in the source label of their best download and
/// in their candidate list give the same listing.
#[verifier::rlimit(60)]
pub proof fn lemma_listing_ignores_source(
    game: EnrichmentInputV,
    lookup: SteamLookup,
    other: crate::models::SourceLabel,
    candidates: Seq<crate::models::DownloadCandidateV>,
)
    ensures
        enriched_spec(
            EnrichmentInputV {
                best_download: crate::models::DownloadCandidateV {
                    source_label: other,
                    ..game.best_download
                },
                candidates: candidates,
                ..game
            },
            lookup,
        ) == enriched_spec(game, lookup),
{
    let g2 = EnrichmentInputV {
        best_download: crate::models::DownloadCandidateV { source_label: other, ..game.best_download },
        candidates: candidates,
        ..game
    };
    let title = crate::scraper::decode_entities_spec(game.raw_title);
    let app_id = match game.steam_app_id {
        Some(id) => Some(id),
        None => lookup.resolved_app_id,
    };
    let steam = if app_id is Some {
        match lookup.details {
            Some(d) => d@,
            None => no_steam_details(),
        }
    } else {
        no_steam_details()
    };
    let spy = if app_id is Some {
        match lookup.spy_tags {
            Some(t) => t.deep_view(),
            None => Seq::empty(),
        }
    } else {
        Seq::empty()
    };
    let page = page_of(game);
    let details = merge_spec(steam, page);
    let category_guess = match first_of(details.genres) {
        Some(g) => Some(g),
        None => category_from_tags_from(details.categories, 0),
    };
    let tags = if spy.len() > 0 {
        spy
    } else {
        crate::text::take_seq(dedup_spec(details.categories + details.genres), 15)
    };
    let version = display_version_spec(game.best_download.version, page.version);
    crate::seo::lemma_copy_ignores_source(
        crate::seo::SeoInputV {
            title: title,
            version: if version.len() > 0 && crate::text::is_digit(version[0]) {
                Some(version)
            } else {
                None
            },
            source_label: game.best_download.source_label,
            steam_blurb: details.description,
            developer: details.developer,
            publisher: details.publisher,
            release_date: details.release_date,
            platforms: platforms_or_windows(details.platforms),
            tags: tags,
            category: category_guess,
        },
        other,
    );
}

} // verus!
