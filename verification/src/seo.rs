//! Listing copy: the SEO title and description, the plain description, the
//! Markdown article and the install steps.
use vstd::prelude::*;
use crate::models::SourceLabel;
use crate::text::{
    chars_of, collapse_ws, collapse_ws_str, lower_of, lower_vec, push_str_vec, push_vec,
    string_of, strs_view, take_chars, take_chars_vec, trim, trimmed_vec, vecs_view, ws_words,
};

verus! {

broadcast use vstd::string::group_string_axioms;

/// Everything SEO-related attached to a listing: `seoTitle`,
/// `seoDescription`, the plain-text `description` and the Markdown article.
#[derive(Clone, Debug)]
pub struct SeoBundle {
    pub seo_title: String,
    pub seo_description: String,
    pub description: String,
    pub article_md: String,
}

pub struct SeoBundleV {
    pub seo_title: Seq<char>,
    pub seo_description: Seq<char>,
    pub description: Seq<char>,
    pub article_md: Seq<char>,
}

impl View for SeoBundle {
    type V = SeoBundleV;

    open spec fn view(&self) -> SeoBundleV {
        SeoBundleV {
            seo_title: self.seo_title@,
            seo_description: self.seo_description@,
            description: self.description@,
            article_md: self.article_md@,
        }
    }
}

impl Default for SeoBundle {
    fn default() -> (r: Self)
        ensures
            r@.seo_title.len() == 0 && r@.seo_description.len() == 0 && r@.description.len() == 0
                && r@.article_md.len() == 0,
    {
        SeoBundle {
            seo_title: String::new(),
            seo_description: String::new(),
            description: String::new(),
            article_md: String::new(),
        }
    }
}

/// What the copy is written from.
pub struct SeoInput<'a> {
    pub title: &'a str,
    pub version: Option<&'a str>,
    pub source_label: &'a SourceLabel,
    pub steam_blurb: Option<&'a str>,
    pub developer: Option<&'a str>,
    pub publisher: Option<&'a str>,
    pub release_date: Option<&'a str>,
    pub platforms: &'a [String],
    pub tags: &'a [String],
    pub category: Option<&'a str>,
}

pub struct SeoInputV {
    pub title: Seq<char>,
    pub version: Option<Seq<char>>,
    pub source_label: SourceLabel,
    pub steam_blurb: Option<Seq<char>>,
    pub developer: Option<Seq<char>>,
    pub publisher: Option<Seq<char>>,
    pub release_date: Option<Seq<char>>,
    pub platforms: Seq<Seq<char>>,
    pub tags: Seq<Seq<char>>,
    pub category: Option<Seq<char>>,
}

pub open spec fn opt_str(o: Option<&str>) -> Option<Seq<char>> {
    match o {
        Some(s) => Some(s@),
        None => None,
    }
}

impl<'a> View for SeoInput<'a> {
    type V = SeoInputV;

    open spec fn view(&self) -> SeoInputV {
        SeoInputV {
            title: self.title@,
            version: opt_str(self.version),
            source_label: *self.source_label,
            steam_blurb: opt_str(self.steam_blurb),
            developer: opt_str(self.developer),
            publisher: opt_str(self.publisher),
            release_date: opt_str(self.release_date),
            platforms: strs_view(self.platforms@),
            tags: strs_view(self.tags@),
            category: opt_str(self.category),
        }
    }
}

fn opt_chars(o: Option<&str>) -> (r: Option<Vec<char>>)
    ensures
        crate::page::ov(r) == opt_str(o),
{
    match o {
        Some(s) => Some(chars_of(s)),
        None => None,
    }
}

// ---------------------------------------------------------------------------
// Punctuation
// ---------------------------------------------------------------------------

/// The ASCII spelling of a typographic character: en and em dashes become
/// '-', the right single quote '\'', curly double quotes '"', the ellipsis
/// "..."; every other character stays.
pub open spec fn punct_of(c: char) -> Seq<char> {
    if c == '\u{2013}' || c == '\u{2014}' {
        seq!['-']
    } else if c == '\u{2019}' {
        seq!['\'']
    } else if c == '\u{201c}' || c == '\u{201d}' {
        seq!['"']
    } else if c == '\u{2026}' {
        seq!['.', '.', '.']
    } else {
        seq![c]
    }
}

/// Typographic punctuation replaced by ASCII throughout.
pub open spec fn ascii_punct(s: Seq<char>) -> Seq<char>
    decreases s.len(),
{
    if s.len() == 0 {
        Seq::empty()
    } else {
        ascii_punct(s.drop_last()) + punct_of(s.last())
    }
}

fn ascii_punct_vec(v: &Vec<char>) -> (out: Vec<char>)
    ensures
        out@ == ascii_punct(v@),
{
    let mut out: Vec<char> = Vec::new();
    let mut i: usize = 0;
    assert(v@.take(0) =~= Seq::<char>::empty());
    while i < v.len()
        invariant
            i <= v.len(),
            out@ == ascii_punct(v@.take(i as int)),
        decreases v.len() - i,
    {
        let c = v[i];
        assert(v@.take(i + 1).drop_last() =~= v@.take(i as int));
        let ghost before = out@;
        if c == '\u{2013}' || c == '\u{2014}' {
            out.push('-');
        } else if c == '\u{2019}' {
            out.push('\'');
        } else if c == '\u{201c}' || c == '\u{201d}' {
            out.push('"');
        } else if c == '\u{2026}' {
            out.push('.');
            out.push('.');
            out.push('.');
        } else {
            out.push(c);
        }
        assert(out@ =~= before + punct_of(c));
        i += 1;
    }
    assert(v@.take(v.len() as int) =~= v@);
    out
}

/// Replace typographic dashes, quotes and ellipses with ASCII; a final
/// safety net over every produced string.
pub fn ascii_punctuation(text: &str) -> (r: String)
    ensures
        r@ == ascii_punct(text@),
{
    let v = chars_of(text);
    string_of(&ascii_punct_vec(&v))
}

// ---------------------------------------------------------------------------
// SEO title
// ---------------------------------------------------------------------------

/// Whole words of `s` while they fit in `max` characters with single spaces
/// between them (the first word is always taken).
pub open spec fn truncate_words(words: Seq<Seq<char>>, out: Seq<char>, max: int) -> Seq<char>
    decreases words.len(),
{
    if words.len() == 0 {
        out
    } else {
        let w = words[0];
        if out.len() + w.len() + 1 > max && out.len() > 0 {
            out
        } else {
            let next = if out.len() > 0 {
                out + seq![' '] + w
            } else {
                out + w
            };
            truncate_words(words.drop_first(), next, max)
        }
    }
}

pub open spec fn truncate_at_word(s: Seq<char>, max: int) -> Seq<char> {
    truncate_words(ws_words(s), Seq::empty(), max)
}

fn truncate_at_word_vec(s: &Vec<char>, max: usize) -> (out: Vec<char>)
    ensures
        out@ == truncate_at_word(s@, max as int),
{
    let words = crate::text::split_whitespace_words(s);
    let ghost ws = vecs_view(words@);
    let mut out: Vec<char> = Vec::new();
    let mut i: usize = 0;
    assert(ws.skip(0) =~= ws);
    while i < words.len()
        invariant
            i <= words.len(),
            ws == vecs_view(words@),
            truncate_at_word(s@, max as int) == truncate_words(ws.skip(i as int), out@, max as int),
        decreases words.len() - i,
    {
        let w = &words[i];
        assert(ws.skip(i as int)[0] == w@);
        assert(ws.skip(i as int).drop_first() =~= ws.skip(i + 1));
        if (out.len() as u128) + (w.len() as u128) + 1 > (max as u128) && out.len() > 0 {
            return out;
        }
        let ghost old_out = out@;
        if out.len() > 0 {
            out.push(' ');
        }
        push_vec(&mut out, w);
        assert(out@ =~= if old_out.len() > 0 {
            old_out + seq![' '] + w@
        } else {
            old_out + w@
        });
        i += 1;
    }
    assert(ws.skip(words.len() as int) =~= Seq::<Seq<char>>::empty());
    out
}

/// The SEO title, in ASCII punctuation and at most 120 characters: the
/// title with "Free Download PC Game (vX)", else with "Free Download PC",
/// else the title cut at a word boundary (then cut at 120 characters, which
/// only a single longer word, or expanded ellipses, can reach).
pub open spec fn seo_title_spec(title: Seq<char>, version: Option<Seq<char>>) -> Seq<char> {
    let with_version = ascii_punct(
        match version {
            Some(v) => title + " Free Download PC Game (v"@ + v + ")"@,
            None => title + " Free Download PC Game"@,
        },
    );
    if with_version.len() <= 120 {
        with_version
    } else {
        let no_version = ascii_punct(title + " Free Download PC"@);
        if no_version.len() <= 120 {
            no_version
        } else {
            take_chars(ascii_punct(truncate_at_word(title, 120)), 120)
        }
    }
}

fn seo_title(title: &Vec<char>, version: &Option<Vec<char>>) -> (r: Vec<char>)
    ensures
        r@ == seo_title_spec(title@, crate::page::ov(*version)),
        r@.len() <= 120,
{
    let mut with_version = vec_copy(title);
    match version {
        Some(v) => {
            push_str_vec(&mut with_version, " Free Download PC Game (v");
            push_vec(&mut with_version, v);
            push_str_vec(&mut with_version, ")");
        },
        None => {
            push_str_vec(&mut with_version, " Free Download PC Game");
        },
    }
    let wv = ascii_punct_vec(&with_version);
    if wv.len() <= 120 {
        return wv;
    }
    let mut no_version = vec_copy(title);
    push_str_vec(&mut no_version, " Free Download PC");
    let nv = ascii_punct_vec(&no_version);
    if nv.len() <= 120 {
        return nv;
    }
    take_chars_vec(&ascii_punct_vec(&truncate_at_word_vec(title, 120)), 120)
}

fn vec_copy(v: &Vec<char>) -> (r: Vec<char>)
    ensures
        r@ == v@,
{
    let r = crate::text::vec_of_range(v, 0, v.len());
    assert(r@ =~= v@);
    r
}

// ---------------------------------------------------------------------------
// Descriptions
// ---------------------------------------------------------------------------

/// `target + piece` when that stays within `max` characters.
pub open spec fn push_if_fits(target: Seq<char>, piece: Seq<char>, max: int) -> Seq<char> {
    if target.len() + piece.len() <= max {
        target + piece
    } else {
        target
    }
}

fn push_if_fits_vec(target: &mut Vec<char>, piece: &Vec<char>, max: usize)
    ensures
        final(target)@ == push_if_fits(old(target)@, piece@, max as int),
{
    if (target.len() as u128) + (piece.len() as u128) <= (max as u128) {
        push_vec(target, piece);
    }
}

pub open spec fn seo_description_spec(
    title: Seq<char>,
    version: Option<Seq<char>>,
    developer: Option<Seq<char>>,
    category: Option<Seq<char>>,
) -> Seq<char> {
    let d0 = "Download "@ + title + " for free on PC. "@;
    let d1 = match version {
        Some(v) => d0 + ("Full version "@ + v + ", pre-installed and ready to play. "@),
        None => d0 + "Full game, pre-installed and ready to play. "@,
    };
    let d2 = match developer {
        Some(dev) => push_if_fits(d1, "By "@ + dev + ". "@, 320),
        None => d1,
    };
    let d3 = match category {
        Some(cat) => push_if_fits(d2, cat + " game with a direct download link. "@, 320),
        None => push_if_fits(d2, "Direct download link included. "@, 320),
    };
    let d4 = push_if_fits(d3, "Install guide and system requirements on the page."@, 320);
    take_chars(ascii_punct(trim(d4)), 320)
}

fn seo_description(
    title: &Vec<char>,
    version: &Option<Vec<char>>,
    developer: &Option<Vec<char>>,
    category: &Option<Vec<char>>,
) -> (r: Vec<char>)
    ensures
        r@ == seo_description_spec(
            title@,
            crate::page::ov(*version),
            crate::page::ov(*developer),
            crate::page::ov(*category),
        ),
        r@.len() <= 320,
{
    let mut desc = chars_of("Download ");
    push_vec(&mut desc, title);
    push_str_vec(&mut desc, " for free on PC. ");
    match version {
        Some(v) => {
            let mut piece = chars_of("Full version ");
            push_vec(&mut piece, v);
            push_str_vec(&mut piece, ", pre-installed and ready to play. ");
            push_vec(&mut desc, &piece);
        },
        None => {
            push_str_vec(&mut desc, "Full game, pre-installed and ready to play. ");
        },
    }
    match developer {
        Some(dev) => {
            let mut piece = chars_of("By ");
            push_vec(&mut piece, dev);
            push_str_vec(&mut piece, ". ");
            push_if_fits_vec(&mut desc, &piece, 320);
        },
        None => {},
    }
    match category {
        Some(cat) => {
            let mut piece = vec_copy(cat);
            push_str_vec(&mut piece, " game with a direct download link. ");
            push_if_fits_vec(&mut desc, &piece, 320);
        },
        None => {
            push_if_fits_vec(&mut desc, &chars_of("Direct download link included. "), 320);
        },
    }
    push_if_fits_vec(
        &mut desc,
        &chars_of("Install guide and system requirements on the page."),
        320,
    );
    let t = trimmed_vec(&desc);
    let p = ascii_punct_vec(&t);
    take_chars_vec(&p, 320)
}

pub open spec fn plain_description_spec(
    title: Seq<char>,
    version: Option<Seq<char>>,
    blurb: Option<Seq<char>>,
    developer: Option<Seq<char>>,
) -> Seq<char> {
    let d0 = title + " free download for PC. Get the full game, pre-installed and ready to play."@;
    let d1 = match version {
        Some(v) => d0 + " Current version: "@ + v + "."@,
        None => d0,
    };
    let cleaned = match blurb {
        Some(b) => if collapse_ws(b).len() > 0 {
            Some(collapse_ws(b))
        } else {
            None
        },
        None => None,
    };
    match cleaned {
        Some(b) => {
            let bb = ascii_punct(b);
            let room = if d1.len() >= 900 {
                0
            } else {
                900 - d1.len()
            };
            if room > 40 {
                d1 + seq![' '] + take_chars(bb, room)
            } else {
                d1
            }
        },
        None => match developer {
            Some(dev) => d1 + " Developed by "@ + dev + "."@,
            None => d1,
        },
    }
}

fn plain_description(
    title: &Vec<char>,
    version: &Option<Vec<char>>,
    blurb: &Option<Vec<char>>,
    developer: &Option<Vec<char>>,
) -> (r: Vec<char>)
    ensures
        r@ == plain_description_spec(
            title@,
            crate::page::ov(*version),
            crate::page::ov(*blurb),
            crate::page::ov(*developer),
        ),
{
    let mut desc = vec_copy(title);
    push_str_vec(
        &mut desc,
        " free download for PC. Get the full game, pre-installed and ready to play.",
    );
    match version {
        Some(v) => {
            push_str_vec(&mut desc, " Current version: ");
            push_vec(&mut desc, v);
            push_str_vec(&mut desc, ".");
        },
        None => {},
    }
    let cleaned = match blurb {
        Some(b) => {
            let c = crate::text::collapse_ws_range(b, 0, b.len());
            assert(b@.subrange(0, b@.len() as int) =~= b@);
            if c.len() > 0 {
                Some(c)
            } else {
                None
            }
        },
        None => None,
    };
    match cleaned {
        Some(b) => {
            let bb = ascii_punct_vec(&b);
            let room: usize = if desc.len() >= 900 {
                0
            } else {
                900 - desc.len()
            };
            if room > 40 {
                let take = take_chars_vec(&bb, room);
                desc.push(' ');
                push_vec(&mut desc, &take);
            }
        },
        None => match developer {
            Some(dev) => {
                push_str_vec(&mut desc, " Developed by ");
                push_vec(&mut desc, dev);
                push_str_vec(&mut desc, ".");
            },
            None => {},
        },
    }
    desc
}

} // verus!

verus! {

// ---------------------------------------------------------------------------
// Markdown article
// ---------------------------------------------------------------------------

/// `- **Label:** value` and a newline, for a value that is not blank
/// once its punctuation is made ASCII; nothing otherwise.
pub open spec fn row_spec(label: Seq<char>, value: Option<Seq<char>>) -> Seq<char> {
    match value {
        Some(v) => if trim(ascii_punct(v)).len() > 0 {
            "- **"@ + label + ":** "@ + trim(ascii_punct(v)) + "\n"@
        } else {
            Seq::empty()
        },
        None => Seq::empty(),
    }
}

fn push_row(md: &mut Vec<char>, label: &str, value: &Option<Vec<char>>)
    ensures
        final(md)@ == old(md)@ + row_spec(label@, crate::page::ov(*value)),
{
    match value {
        Some(v) => {
            let t = trimmed_vec(&ascii_punct_vec(v));
            if t.len() > 0 {
                let ghost before = md@;
                push_str_vec(md, "- **");
                push_str_vec(md, label);
                push_str_vec(md, ":** ");
                push_vec(md, &t);
                push_str_vec(md, "\n");
                assert(md@ =~= before + row_spec(label@, crate::page::ov(*value)));
            } else {
                assert(md@ =~= old(md)@ + Seq::<char>::empty());
            }
        },
        None => {
            assert(md@ =~= old(md)@ + Seq::<char>::empty());
        },
    }
}

/// The blurb paragraph: Steam's blurb with ASCII punctuation, trimmed, or a
/// generic line that names no site the game was collected from.
pub open spec fn about_text(t: Seq<char>, blurb: Option<Seq<char>>) -> Seq<char> {
    match blurb {
        Some(b) if trim(ascii_punct(b)).len() > 0 => trim(ascii_punct(b)),
        _ => t + " is a full PC game release. This listing collects verified download details so you can get the complete game, pre-installed and ready to play."@,
    }
}

pub open spec fn details_rows(t: Seq<char>, version: Option<Seq<char>>, i: SeoInputV) -> Seq<char> {
    "## Game Details\n\n"@ + row_spec("Title"@, Some(t)) + row_spec("Version"@, version) + (if i.tags.len()
        > 0 {
        row_spec("Genre"@, Some(crate::text::join_sep(i.tags.take(if i.tags.len() < 4 { i.tags.len() as int } else { 4 }), ", "@)))
    } else {
        Seq::empty()
    }) + row_spec("Developer"@, i.developer) + row_spec("Publisher"@, i.publisher) + row_spec(
        "Release Date"@,
        i.release_date,
    ) + (if i.platforms.len() > 0 {
        row_spec("Platforms"@, Some(crate::text::join_sep(i.platforms, ", "@)))
    } else {
        Seq::empty()
    }) + "\n"@
}

pub open spec fn install_text(t: Seq<char>) -> Seq<char> {
    "## How to Download & Install "@ + t + "\n\n"@
        + "1. Click the **Download** button below and save the file.\n"@
        + "2. Extract the archive if prompted (no extra software needed).\n"@
        + "3. Run the setup and let it install. The game comes pre-installed and patched.\n"@
        + "4. Launch "@ + t + " and play.\n\n"@
}

pub open spec fn closing_text(t: Seq<char>, version: Option<Seq<char>>, category: Option<Seq<char>>) -> Seq<char> {
    let c0 = "This "@ + t + " PC download is the complete game"@;
    let c1 = match version {
        Some(v) => c0 + ", updated to version "@ + v,
        None => c0,
    };
    let c2 = match category {
        Some(cat) => c1 + " in the "@ + lower_of(cat) + " category"@,
        None => c1,
    };
    ascii_punct(c2 + ". Bookmark this page for "@ + t + " updates, which are added automatically."@)
}

pub open spec fn article_spec(t: Seq<char>, version: Option<Seq<char>>, i: SeoInputV) -> Seq<char> {
    "## About "@ + t + "\n\n"@ + about_text(t, i.steam_blurb) + "\n\n"@
        + details_rows(t, version, i) + install_text(t) + closing_text(t, version, i.category)
}

fn about_vec(title: &Vec<char>, input: &SeoInput) -> (r: Vec<char>)
    ensures
        r@ == about_text(title@, input@.steam_blurb),
{
    let blurb = opt_chars(input.steam_blurb);
    let about = match &blurb {
        Some(b) => {
            let t = trimmed_vec(&ascii_punct_vec(b));
            if t.len() > 0 {
                Some(t)
            } else {
                None
            }
        },
        None => None,
    };
    match about {
        Some(t) => t,
        None => {
            let mut md = vec_copy(title);
            push_str_vec(
                &mut md,
                " is a full PC game release. This listing collects verified download details so you can get the complete game, pre-installed and ready to play.",
            );
            md
        },
    }
}

fn first_tags(tags: &Vec<Vec<char>>) -> (r: Vec<Vec<char>>)
    ensures
        vecs_view(r@) == vecs_view(tags@).take(
            if tags.len() < 4 {
                tags.len() as int
            } else {
                4
            },
        ),
{
    let n: usize = if tags.len() < 4 {
        tags.len()
    } else {
        4
    };
    let mut first: Vec<Vec<char>> = Vec::new();
    let mut k: usize = 0;
    while k < n
        invariant
            k <= n <= tags.len(),
            vecs_view(first@) == vecs_view(tags@).take(k as int),
        decreases n - k,
    {
        let g = vec_copy(&tags[k]);
        assert(g@ == vecs_view(tags@)[k as int]);
        let ghost before = vecs_view(first@);
        let ghost gv = g@;
        first.push(g);
        assert(vecs_view(first@) =~= before.push(gv));
        assert(vecs_view(tags@).take(k + 1) =~= vecs_view(tags@).take(k as int).push(gv));
        k += 1;
    }
    first
}

fn details_vec(title: &Vec<char>, version: &Option<Vec<char>>, input: &SeoInput) -> (r: Vec<char>)
    ensures
        r@ == details_rows(title@, crate::page::ov(*version), input@),
{
    let mut md = chars_of("## Game Details\n\n");
    push_row(&mut md, "Title", &Some(vec_copy(title)));
    push_row(&mut md, "Version", version);
    let tags = crate::text::vecs_of_strings(input.tags);
    let ghost at_genre = md@;
    if tags.len() > 0 {
        let first = first_tags(&tags);
        let joined = crate::text::join_sep_vec(&first, ", ");
        push_row(&mut md, "Genre", &Some(joined));
    } else {
        assert(md@ =~= at_genre + Seq::<char>::empty());
    }
    push_row(&mut md, "Developer", &opt_chars(input.developer));
    push_row(&mut md, "Publisher", &opt_chars(input.publisher));
    push_row(&mut md, "Release Date", &opt_chars(input.release_date));
    let platforms = crate::text::vecs_of_strings(input.platforms);
    let ghost at_platforms = md@;
    if platforms.len() > 0 {
        let joined = crate::text::join_sep_vec(&platforms, ", ");
        push_row(&mut md, "Platforms", &Some(joined));
    } else {
        assert(md@ =~= at_platforms + Seq::<char>::empty());
    }
    push_str_vec(&mut md, "\n");
    md
}

fn install_vec(title: &Vec<char>) -> (r: Vec<char>)
    ensures
        r@ == install_text(title@),
{
    let mut md = chars_of("## How to Download & Install ");
    push_vec(&mut md, title);
    push_str_vec(&mut md, "\n\n");
    push_str_vec(&mut md, "1. Click the **Download** button below and save the file.\n");
    push_str_vec(&mut md, "2. Extract the archive if prompted (no extra software needed).\n");
    push_str_vec(
        &mut md,
        "3. Run the setup and let it install. The game comes pre-installed and patched.\n",
    );
    push_str_vec(&mut md, "4. Launch ");
    push_vec(&mut md, title);
    push_str_vec(&mut md, " and play.\n\n");
    md
}

fn closing_vec(title: &Vec<char>, version: &Option<Vec<char>>, category: Option<&str>) -> (r: Vec<
    char,
>)
    ensures
        r@ == closing_text(title@, crate::page::ov(*version), opt_str(category)),
{
    let mut closing = chars_of("This ");
    push_vec(&mut closing, title);
    push_str_vec(&mut closing, " PC download is the complete game");
    match version {
        Some(v) => {
            push_str_vec(&mut closing, ", updated to version ");
            push_vec(&mut closing, v);
        },
        None => {},
    }
    match category {
        Some(cat) => {
            push_str_vec(&mut closing, " in the ");
            let c = chars_of(cat);
            push_vec(&mut closing, &lower_vec(&c));
            push_str_vec(&mut closing, " category");
        },
        None => {},
    }
    push_str_vec(&mut closing, ". Bookmark this page for ");
    push_vec(&mut closing, title);
    push_str_vec(&mut closing, " updates, which are added automatically.");
    ascii_punct_vec(&closing)
}

fn article_markdown(title: &Vec<char>, version: &Option<Vec<char>>, input: &SeoInput) -> (r: Vec<char>)
    ensures
        r@ == article_spec(title@, crate::page::ov(*version), input@),
{
    let mut md = chars_of("## About ");
    push_vec(&mut md, title);
    push_str_vec(&mut md, "\n\n");
    push_vec(&mut md, &about_vec(title, input));
    push_str_vec(&mut md, "\n\n");
    push_vec(&mut md, &details_vec(title, version, input));
    push_vec(&mut md, &install_vec(title));
    push_vec(&mut md, &closing_vec(title, version, input.category));
    md
}

// ---------------------------------------------------------------------------
// The bundle
// ---------------------------------------------------------------------------

/// The version used in the copy: the given one unless it is blank.
pub open spec fn copy_version(v: Option<Seq<char>>) -> Option<Seq<char>> {
    match v {
        Some(x) => if trim(x).len() > 0 {
            Some(x)
        } else {
            None
        },
        None => None,
    }
}

pub open spec fn build_listing_spec(i: SeoInputV) -> SeoBundleV {
    let t = collapse_ws(i.title);
    let v = copy_version(i.version);
    SeoBundleV {
        seo_title: seo_title_spec(t, v),
        seo_description: seo_description_spec(t, v, i.developer, i.category),
        description: plain_description_spec(t, v, i.steam_blurb, i.developer),
        article_md: article_spec(t, v, i),
    }
}

/// Build the full SEO bundle for one listing.
pub fn build_listing(input: &SeoInput) -> (r: SeoBundle)
    ensures
        r@ == build_listing_spec(input@),
        r@.seo_title.len() <= 120,
        r@.seo_description.len() <= 320,
{
    let tv = chars_of(input.title);
    let title = crate::text::collapse_ws_range(&tv, 0, tv.len());
    assert(tv@.subrange(0, tv@.len() as int) =~= tv@);
    let version = match input.version {
        Some(v) => {
            let c = chars_of(v);
            if trimmed_vec(&c).len() > 0 {
                Some(c)
            } else {
                None
            }
        },
        None => None,
    };
    let developer = opt_chars(input.developer);
    let category = opt_chars(input.category);
    let blurb = opt_chars(input.steam_blurb);
    SeoBundle {
        seo_title: string_of(&seo_title(&title, &version)),
        seo_description: string_of(&seo_description(&title, &version, &developer, &category)),
        description: string_of(&plain_description(&title, &version, &blurb, &developer)),
        article_md: string_of(&article_markdown(&title, &version, input)),
    }
}

/// Shared install-step copy used both in the article and the listing's
/// `instructions` array.
pub fn install_steps(title: &str) -> (r: Vec<String>)
    ensures
        r@.len() == 4,
        r@[0]@ == "Click the Download button on this page and save the file."@,
        r@[1]@ == "Extract the archive if prompted (no extra software needed)."@,
        r@[2]@ == "Run the setup and let it install. The game comes pre-installed and patched."@,
        r@[3]@ == "Launch "@ + ascii_punct(collapse_ws(title@)) + " and play."@,
{
    let t = ascii_punct_vec(&chars_of(collapse_ws_str(title).as_str()));
    let mut last = chars_of("Launch ");
    push_vec(&mut last, &t);
    push_str_vec(&mut last, " and play.");
    let r = vec![
        String::from_str("Click the Download button on this page and save the file."),
        String::from_str("Extract the archive if prompted (no extra software needed)."),
        String::from_str(
            "Run the setup and let it install. The game comes pre-installed and patched.",
        ),
        string_of(&last),
    ];
    r
}

} // verus!

verus! {

// ---------------------------------------------------------------------------
// Length guarantees
// ---------------------------------------------------------------------------

/// The SEO title never exceeds 120 characters.
pub proof fn lemma_seo_title_len(title: Seq<char>, version: Option<Seq<char>>)
    ensures
        seo_title_spec(title, version).len() <= 120,
{
}

/// The plain description always has at least 30 characters, the minimum
/// for published listings.
pub proof fn lemma_description_len(
    title: Seq<char>,
    version: Option<Seq<char>>,
    blurb: Option<Seq<char>>,
    developer: Option<Seq<char>>,
)
    ensures
        plain_description_spec(title, version, blurb, developer).len() >= 30,
{
    reveal_strlit(" free download for PC. Get the full game, pre-installed and ready to play.");
}

/// Every bundle's SEO description has at most 320 characters and its
/// description at least 30.
pub proof fn lemma_bundle_lengths(i: SeoInputV)
    ensures
        build_listing_spec(i).seo_description.len() <= 320,
        build_listing_spec(i).description.len() >= 30,
{
    let t = collapse_ws(i.title);
    let v = copy_version(i.version);
    lemma_description_len(t, v, i.steam_blurb, i.developer);
}

} // verus!

verus! {

// ---------------------------------------------------------------------------
// Law: no en or em dash in the copy
// ---------------------------------------------------------------------------

pub open spec fn is_dash(c: char) -> bool {
    c == '\u{2013}' || c == '\u{2014}'
}

/// The text holds no en or em dash.
pub open spec fn no_dash(s: Seq<char>) -> bool {
    forall|k: int| 0 <= k < s.len() ==> !is_dash(#[trigger] s[k])
}

proof fn lemma_no_dash_concat(a: Seq<char>, b: Seq<char>)
    requires
        no_dash(a),
        no_dash(b),
    ensures
        no_dash(a + b),
{
    assert forall|k: int| 0 <= k < (a + b).len() implies !is_dash(#[trigger] (a + b)[k]) by {
        if k < a.len() {
            assert((a + b)[k] == a[k]);
        } else {
            assert((a + b)[k] == b[k - a.len()]);
        }
    }
}

proof fn lemma_no_dash_sub(s: Seq<char>, i: int, j: int)
    requires
        no_dash(s),
        0 <= i <= j <= s.len(),
    ensures
        no_dash(s.subrange(i, j)),
{
    assert forall|k: int| 0 <= k < s.subrange(i, j).len() implies !is_dash(#[trigger] s.subrange(i, j)[k]) by {
        assert(s.subrange(i, j)[k] == s[i + k]);
    }
}

proof fn lemma_ascii_punct_no_dash(s: Seq<char>)
    ensures
        no_dash(ascii_punct(s)),
    decreases s.len(),
{
    if s.len() > 0 {
        lemma_ascii_punct_no_dash(s.drop_last());
        let p = punct_of(s.last());
        assert(no_dash(p));
        lemma_no_dash_concat(ascii_punct(s.drop_last()), p);
    }
}

proof fn lemma_trim_no_dash(s: Seq<char>)
    requires
        no_dash(s),
    ensures
        no_dash(trim(s)),
{
    crate::text::lemma_lead_ws(s);
    let a = crate::text::trim_start(s);
    assert(a == s.subrange(crate::text::lead_ws(s) as int, s.len() as int));
    lemma_no_dash_sub(s, crate::text::lead_ws(s) as int, s.len() as int);
    crate::text::lemma_trail_ws(a);
    assert(trim(s) == a.subrange(0, a.len() - crate::text::trail_ws(a)));
    lemma_no_dash_sub(a, 0, a.len() - crate::text::trail_ws(a));
}

proof fn lemma_collapse_no_dash(s: Seq<char>)
    requires
        no_dash(s),
    ensures
        no_dash(collapse_ws(s)),
    decreases s.len(),
{
    if s.len() > 0 {
        let p = s.drop_last();
        assert(no_dash(p)) by {
            assert forall|k: int| 0 <= k < p.len() implies !is_dash(#[trigger] p[k]) by {
                assert(p[k] == s[k]);
            }
        }
        lemma_collapse_no_dash(p);
        let c = s.last();
        assert(!is_dash(s[s.len() - 1]));
        lemma_no_dash_concat(collapse_ws(p), seq![c]);
        lemma_no_dash_concat(collapse_ws(p), seq![' ']);
        lemma_no_dash_concat(collapse_ws(p).push(' '), seq![c]);
        assert(collapse_ws(p).push(c) == collapse_ws(p) + seq![c]);
        assert(collapse_ws(p).push(' ') == collapse_ws(p) + seq![' ']);
        assert(collapse_ws(p).push(' ').push(c) == collapse_ws(p).push(' ') + seq![c]);
    }
}

proof fn lemma_article_literals()
    ensures
        no_dash("## About "@),
        no_dash("\n\n"@),
        no_dash("\n"@),
        no_dash(" is a full PC game release. This listing collects verified download details so you can get the complete game, pre-installed and ready to play."@),
        no_dash("## Game Details\n\n"@),
        no_dash("- **"@),
        no_dash(":** "@),
        no_dash("Title"@),
        no_dash("Version"@),
        no_dash("Genre"@),
        no_dash("Developer"@),
        no_dash("Publisher"@),
        no_dash("Release Date"@),
        no_dash("Platforms"@),
        no_dash("## How to Download & Install "@),
        no_dash("1. Click the **Download** button below and save the file.\n"@),
        no_dash("2. Extract the archive if prompted (no extra software needed).\n"@),
        no_dash("3. Run the setup and let it install. The game comes pre-installed and patched.\n"@),
        no_dash("4. Launch "@),
        no_dash(" and play.\n\n"@),
{
    reveal_strlit("## About ");
    reveal_strlit("\n\n");
    reveal_strlit("\n");
    reveal_strlit(" is a full PC game release. This listing collects verified download details so you can get the complete game, pre-installed and ready to play.");
    reveal_strlit("## Game Details\n\n");
    reveal_strlit("- **");
    reveal_strlit(":** ");
    reveal_strlit("Title");
    reveal_strlit("Version");
    reveal_strlit("Genre");
    reveal_strlit("Developer");
    reveal_strlit("Publisher");
    reveal_strlit("Release Date");
    reveal_strlit("Platforms");
    reveal_strlit("## How to Download & Install ");
    reveal_strlit("1. Click the **Download** button below and save the file.\n");
    reveal_strlit("2. Extract the archive if prompted (no extra software needed).\n");
    reveal_strlit("3. Run the setup and let it install. The game comes pre-installed and patched.\n");
    reveal_strlit("4. Launch ");
    reveal_strlit(" and play.\n\n");
}

proof fn lemma_row_no_dash(label: Seq<char>, value: Option<Seq<char>>)
    requires
        no_dash(label),
    ensures
        no_dash(row_spec(label, value)),
{
    lemma_article_literals();
    match value {
        Some(v) => {
            lemma_ascii_punct_no_dash(v);
            lemma_trim_no_dash(ascii_punct(v));
            let t = trim(ascii_punct(v));
            if t.len() > 0 {
                lemma_no_dash_concat("- **"@, label);
                lemma_no_dash_concat("- **"@ + label, ":** "@);
                lemma_no_dash_concat("- **"@ + label + ":** "@, t);
                lemma_no_dash_concat("- **"@ + label + ":** "@ + t, "\n"@);
            }
        },
        None => {},
    }
}

proof fn lemma_details_no_dash(t: Seq<char>, version: Option<Seq<char>>, i: SeoInputV)
    ensures
        no_dash(details_rows(t, version, i)),
{
    lemma_article_literals();
    let n = if i.tags.len() < 4 { i.tags.len() as int } else { 4 };
    let genre = if i.tags.len() > 0 {
        row_spec("Genre"@, Some(crate::text::join_sep(i.tags.take(n), ", "@)))
    } else {
        Seq::empty()
    };
    let plats = if i.platforms.len() > 0 {
        row_spec("Platforms"@, Some(crate::text::join_sep(i.platforms, ", "@)))
    } else {
        Seq::empty()
    };
    lemma_row_no_dash("Title"@, Some(t));
    lemma_row_no_dash("Version"@, version);
    lemma_row_no_dash("Genre"@, Some(crate::text::join_sep(i.tags.take(n), ", "@)));
    lemma_row_no_dash("Developer"@, i.developer);
    lemma_row_no_dash("Publisher"@, i.publisher);
    lemma_row_no_dash("Release Date"@, i.release_date);
    lemma_row_no_dash("Platforms"@, Some(crate::text::join_sep(i.platforms, ", "@)));
    assert(no_dash(genre));
    assert(no_dash(plats));
    let a0 = "## Game Details\n\n"@ + row_spec("Title"@, Some(t));
    lemma_no_dash_concat("## Game Details\n\n"@, row_spec("Title"@, Some(t)));
    let a1 = a0 + row_spec("Version"@, version);
    lemma_no_dash_concat(a0, row_spec("Version"@, version));
    let a2 = a1 + genre;
    lemma_no_dash_concat(a1, genre);
    let a3 = a2 + row_spec("Developer"@, i.developer);
    lemma_no_dash_concat(a2, row_spec("Developer"@, i.developer));
    let a4 = a3 + row_spec("Publisher"@, i.publisher);
    lemma_no_dash_concat(a3, row_spec("Publisher"@, i.publisher));
    let a5 = a4 + row_spec("Release Date"@, i.release_date);
    lemma_no_dash_concat(a4, row_spec("Release Date"@, i.release_date));
    let a6 = a5 + plats;
    lemma_no_dash_concat(a5, plats);
    lemma_no_dash_concat(a6, "\n"@);
}

proof fn lemma_about_no_dash(t: Seq<char>, blurb: Option<Seq<char>>)
    requires
        no_dash(t),
    ensures
        no_dash(about_text(t, blurb)),
{
    lemma_article_literals();
    match blurb {
        Some(b) => {
            lemma_ascii_punct_no_dash(b);
            lemma_trim_no_dash(ascii_punct(b));
        },
        None => {},
    }
    lemma_no_dash_concat(t, " is a full PC game release. This listing collects verified download details so you can get the complete game, pre-installed and ready to play."@);
}

proof fn lemma_install_no_dash(t: Seq<char>)
    requires
        no_dash(t),
    ensures
        no_dash(install_text(t)),
{
    lemma_article_literals();
    let l1 = "1. Click the **Download** button below and save the file.\n"@;
    let l2 = "2. Extract the archive if prompted (no extra software needed).\n"@;
    let l3 = "3. Run the setup and let it install. The game comes pre-installed and patched.\n"@;
    let a0 = "## How to Download & Install "@ + t;
    lemma_no_dash_concat("## How to Download & Install "@, t);
    lemma_no_dash_concat(a0, "\n\n"@);
    lemma_no_dash_concat(a0 + "\n\n"@, l1);
    lemma_no_dash_concat(a0 + "\n\n"@ + l1, l2);
    lemma_no_dash_concat(a0 + "\n\n"@ + l1 + l2, l3);
    lemma_no_dash_concat(a0 + "\n\n"@ + l1 + l2 + l3, "4. Launch "@);
    lemma_no_dash_concat(a0 + "\n\n"@ + l1 + l2 + l3 + "4. Launch "@, t);
    lemma_no_dash_concat(a0 + "\n\n"@ + l1 + l2 + l3 + "4. Launch "@ + t, " and play.\n\n"@);
}

/// The copy names no site the game was collected from: two inputs that
/// differ only in their source site get the same bundle.
pub proof fn lemma_copy_ignores_source(i: SeoInputV, other: SourceLabel)
    ensures
        build_listing_spec(SeoInputV { source_label: other, ..i }) == build_listing_spec(i),
{
}

/// No en or em dash in the generated copy: never in the SEO title or the
/// SEO description, and never in the article when the title holds none.
pub proof fn lemma_copy_has_no_dashes(i: SeoInputV)
    ensures
        no_dash(build_listing_spec(i).seo_title),
        no_dash(build_listing_spec(i).seo_description),
        no_dash(i.title) ==> no_dash(build_listing_spec(i).article_md),
{
    let t = collapse_ws(i.title);
    let v = copy_version(i.version);
    let with_version = match v {
        Some(x) => t + " Free Download PC Game (v"@ + x + ")"@,
        None => t + " Free Download PC Game"@,
    };
    lemma_ascii_punct_no_dash(with_version);
    lemma_ascii_punct_no_dash(t + " Free Download PC"@);
    lemma_ascii_punct_no_dash(truncate_at_word(t, 120));
    let d = seo_description_spec(t, v, i.developer, i.category);
    let d0 = "Download "@ + t + " for free on PC. "@;
    let d1 = match v {
        Some(x) => d0 + ("Full version "@ + x + ", pre-installed and ready to play. "@),
        None => d0 + "Full game, pre-installed and ready to play. "@,
    };
    let d2 = match i.developer {
        Some(dev) => push_if_fits(d1, "By "@ + dev + ". "@, 320),
        None => d1,
    };
    let d3 = match i.category {
        Some(cat) => push_if_fits(d2, cat + " game with a direct download link. "@, 320),
        None => push_if_fits(d2, "Direct download link included. "@, 320),
    };
    let d4 = push_if_fits(d3, "Install guide and system requirements on the page."@, 320);
    let p = ascii_punct(trim(d4));
    lemma_ascii_punct_no_dash(trim(d4));
    if p.len() > 320 {
        lemma_no_dash_sub(p, 0, 320);
        assert(p.take(320) == p.subrange(0, 320));
    }
    if no_dash(i.title) {
        lemma_collapse_no_dash(i.title);
        lemma_article_literals();
        let a0 = "## About "@ + t;
        lemma_no_dash_concat("## About "@, t);
        lemma_no_dash_concat(a0, "\n\n"@);
        lemma_about_no_dash(t, i.steam_blurb);
        lemma_no_dash_concat(a0 + "\n\n"@, about_text(t, i.steam_blurb));
        let a1 = a0 + "\n\n"@ + about_text(t, i.steam_blurb);
        lemma_no_dash_concat(a1, "\n\n"@);
        lemma_details_no_dash(t, v, i);
        lemma_no_dash_concat(a1 + "\n\n"@, details_rows(t, v, i));
        lemma_install_no_dash(t);
        lemma_no_dash_concat(a1 + "\n\n"@ + details_rows(t, v, i), install_text(t));
        let c = "This "@ + t + " PC download is the complete game"@;
        let c1 = match v {
            Some(x) => c + ", updated to version "@ + x,
            None => c,
        };
        let c2 = match i.category {
            Some(cat) => c1 + " in the "@ + lower_of(cat) + " category"@,
            None => c1,
        };
        lemma_ascii_punct_no_dash(c2 + ". Bookmark this page for "@ + t + " updates, which are added automatically."@);
        lemma_no_dash_concat(a1 + "\n\n"@ + details_rows(t, v, i) + install_text(t), closing_text(t, v, i.category));
    }
}


proof fn lemma_ascii_punct_concat(a: Seq<char>, b: Seq<char>)
    ensures
        ascii_punct(a + b) == ascii_punct(a) + ascii_punct(b),
    decreases b.len(),
{
    if b.len() == 0 {
        assert(a + b =~= a);
        assert(ascii_punct(a) + ascii_punct(b) =~= ascii_punct(a));
    } else {
        lemma_ascii_punct_concat(a, b.drop_last());
        assert((a + b).drop_last() =~= a + b.drop_last());
        assert((a + b).last() == b.last());
        assert(ascii_punct(a) + ascii_punct(b.drop_last()) + punct_of(b.last()) =~= ascii_punct(a) + (
        ascii_punct(b.drop_last()) + punct_of(b.last())));
    }
}

proof fn lemma_ascii_punct_plain(s: Seq<char>)
    requires
        forall|k: int| 0 <= k < s.len() ==> punct_of(#[trigger] s[k]) == seq![s[k]],
    ensures
        ascii_punct(s) == s,
    decreases s.len(),
{
    if s.len() > 0 {
        let d = s.drop_last();
        assert forall|k: int| 0 <= k < d.len() implies punct_of(#[trigger] d[k]) == seq![d[k]] by {
            assert(d[k] == s[k]);
        }
        lemma_ascii_punct_plain(d);
        assert(punct_of(s[s.len() - 1]) == seq![s[s.len() - 1]]);
        assert(d.push(s.last()) =~= s);
    }
}

proof fn lemma_plain_literal(s: Seq<char>)
    requires
        forall|k: int| 0 <= k < s.len() ==> 'a' <= #[trigger] s[k] <= 'z' || 'A' <= s[k] <= 'Z' || s[k] == ' '
            || s[k] == '.' || s[k] == ',' || s[k] == '-' || s[k] == '(' || s[k] == ')',
    ensures
        ascii_punct(s) == s,
{
    assert forall|k: int| 0 <= k < s.len() implies punct_of(#[trigger] s[k]) == seq![s[k]] by {}
    lemma_ascii_punct_plain(s);
}

proof fn lemma_push_prefix(s: Seq<char>, p: Seq<char>, n: int)
    ensures
        push_if_fits(s, p, n).len() >= s.len(),
        push_if_fits(s, p, n).take(s.len() as int) =~= s,
{
}

proof fn lemma_trim_keeps_upto(d: Seq<char>, q: int)
    requires
        0 <= q < d.len(),
        !crate::text::is_ws(d[0]),
        !crate::text::is_ws(d[q]),
    ensures
        trim(d).len() > q,
        trim(d).take(q) =~= d.take(q),
{
    assert(crate::text::lead_ws(d) == 0);
    assert(crate::text::trim_start(d) =~= d);
    crate::text::lemma_trail_ws(d);
    if q >= d.len() - crate::text::trail_ws(d) {
        assert(crate::text::is_ws(d[q]));
    }
}

proof fn lemma_copy_holds(tt: Seq<char>, t: Seq<char>, x: Seq<char>)
    requires
        tt.len() > ("Download "@ + t + " for free on PC. "@ + ("Full version "@ + x)).len(),
        tt.take(("Download "@ + t + " for free on PC. "@ + ("Full version "@ + x)).len() as int)
            == "Download "@ + t + " for free on PC. "@ + ("Full version "@ + x),
        ascii_punct(t).len() + ascii_punct(x).len() + 40 <= 320,
    ensures
        crate::text::contains(take_chars(ascii_punct(tt), 320), "Full version "@ + ascii_punct(x)),
{
    reveal_strlit("Download ");
    reveal_strlit(" for free on PC. ");
    reveal_strlit("Full version ");
    let d0 = "Download "@ + t + " for free on PC. "@;
    let n = "Full version "@ + x;
    let q = (d0 + n).len() as int;
    assert(tt =~= (d0 + n) + tt.skip(q));
    lemma_ascii_punct_concat(d0 + n, tt.skip(q));
    lemma_ascii_punct_concat(d0, n);
    lemma_ascii_punct_concat("Download "@ + t, " for free on PC. "@);
    lemma_ascii_punct_concat("Download "@, t);
    lemma_ascii_punct_concat("Full version "@, x);
    lemma_plain_literal("Download "@);
    lemma_plain_literal(" for free on PC. "@);
    lemma_plain_literal("Full version "@);
    let a = ascii_punct(tt);
    let j: int = (26 + ascii_punct(t).len()) as int;
    let needle = "Full version "@ + ascii_punct(x);
    assert(a =~= ("Download "@ + ascii_punct(t) + " for free on PC. "@) + needle + ascii_punct(tt.skip(q)));
    assert(a.subrange(j, j + needle.len()) =~= needle);
    let f = take_chars(a, 320);
    assert(f.subrange(j, j + needle.len()) =~= needle);
    crate::text::lemma_occurs_contains(f, needle, j);
}

/// The SEO description names the version: when the listing has a version
/// that is not blank, and the opening sentences fit the 320 characters,
/// the description holds "Full version " followed by that version (with
/// typographic punctuation made ASCII, as in the rest of the copy).
pub proof fn lemma_description_names_version(i: SeoInputV, x: Seq<char>)
    requires
        i.version == Some(x),
        trim(x).len() > 0,
        ascii_punct(collapse_ws(i.title)).len() + ascii_punct(x).len() + 40 <= 320,
    ensures
        crate::text::contains(build_listing_spec(i).seo_description, "Full version "@ + ascii_punct(x)),
        (forall|k: int| 0 <= k < x.len() ==> punct_of(#[trigger] x[k]) == seq![x[k]])
            ==> crate::text::contains(build_listing_spec(i).seo_description, "Full version "@ + x),
{
    reveal_strlit("Download ");
    reveal_strlit(" for free on PC. ");
    reveal_strlit("Full version ");
    reveal_strlit(", pre-installed and ready to play. ");
    let t = collapse_ws(i.title);
    assert(copy_version(i.version) == Some(x));
    let d0 = "Download "@ + t + " for free on PC. "@;
    let n = "Full version "@ + x;
    let d1 = d0 + (n + ", pre-installed and ready to play. "@);
    let d2 = match i.developer {
        Some(dev) => push_if_fits(d1, "By "@ + dev + ". "@, 320),
        None => d1,
    };
    let d3 = match i.category {
        Some(cat) => push_if_fits(d2, cat + " game with a direct download link. "@, 320),
        None => push_if_fits(d2, "Direct download link included. "@, 320),
    };
    let d4 = push_if_fits(d3, "Install guide and system requirements on the page."@, 320);
    assert(build_listing_spec(i).seo_description == take_chars(ascii_punct(trim(d4)), 320));
    match i.developer {
        Some(dev) => lemma_push_prefix(d1, "By "@ + dev + ". "@, 320),
        None => {},
    }
    match i.category {
        Some(cat) => lemma_push_prefix(d2, cat + " game with a direct download link. "@, 320),
        None => lemma_push_prefix(d2, "Direct download link included. "@, 320),
    }
    lemma_push_prefix(d3, "Install guide and system requirements on the page."@, 320);
    assert(d4.take(d1.len() as int) =~= d1) by {
        assert(d4.take(d1.len() as int) =~= d4.take(d3.len() as int).take(d1.len() as int));
        assert(d3.take(d1.len() as int) =~= d3.take(d2.len() as int).take(d1.len() as int));
    }
    let q: int = (d0.len() + n.len()) as int;
    assert(d1[q] == ',');
    assert(d4[q] == d1[q]);
    assert(d4[0] == d1[0]);
    assert(d1[0] == 'D');
    lemma_trim_keeps_upto(d4, q);
    assert(trim(d4).take(q) =~= d0 + n);
    lemma_copy_holds(trim(d4), t, x);
    if forall|k: int| 0 <= k < x.len() ==> punct_of(#[trigger] x[k]) == seq![x[k]] {
        lemma_ascii_punct_plain(x);
    }
}

/// The SEO title carries the version: when the listing has a version that
/// is not blank and the full title fits 120 characters, the SEO title is
/// the title, " Free Download PC Game (v", the version and ")" (typographic
/// punctuation made ASCII).
pub proof fn lemma_title_names_version(i: SeoInputV, x: Seq<char>)
    requires
        i.version == Some(x),
        trim(x).len() > 0,
        ascii_punct(collapse_ws(i.title)).len() + ascii_punct(x).len() + 26 <= 120,
    ensures
        build_listing_spec(i).seo_title == ascii_punct(collapse_ws(i.title)) + " Free Download PC Game (v"@
            + ascii_punct(x) + ")"@,
{
    reveal_strlit(" Free Download PC Game (v");
    reveal_strlit(")");
    let t = collapse_ws(i.title);
    assert(copy_version(i.version) == Some(x));
    lemma_ascii_punct_concat(t + " Free Download PC Game (v"@ + x, ")"@);
    lemma_ascii_punct_concat(t + " Free Download PC Game (v"@, x);
    lemma_ascii_punct_concat(t, " Free Download PC Game (v"@);
    lemma_plain_literal(" Free Download PC Game (v"@);
    lemma_plain_literal(")"@);
}

} // verus!
