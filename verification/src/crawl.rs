//! The A-Z catalog walk: which hub pages to read, and the pagination of
//! one letter, bounded so that a markup change cannot loop.
use vstd::prelude::*;
use crate::scraper::{
    anchors, extract_game_links, game_links_from, game_links_view, join_url, join_url_spec,
    page_candidates, pagination_paths, GameLink,
};
use crate::text::{chars_of, push_str_vec, strictly_sorted, string_of};

verus! {

broadcast use vstd::string::group_string_axioms;

/// The one-page A-Z list of the first site.
pub fn steamrip_catalog_path() -> (r: String)
    ensures
        r@ == "/games-list-page/"@,
{
    String::from_str("/games-list-page/")
}

/// The A-Z hub of the second site.
pub fn steamunlocked_catalog_path() -> (r: String)
    ensures
        r@ == "/all-games/"@,
{
    String::from_str("/all-games/")
}

/// The letter pages of the hub, digits first.
pub open spec fn default_letters() -> Seq<Seq<char>> {
    seq![
        "0-9"@, "a"@, "b"@, "c"@, "d"@, "e"@, "f"@, "g"@, "h"@, "i"@, "j"@, "k"@, "l"@, "m"@,
        "n"@, "o"@, "p"@, "q"@, "r"@, "s"@, "t"@, "u"@, "v"@, "w"@, "x"@, "y"@, "z"@,
    ]
}

/// The letter pages to walk: those the hub links, or the known set when
/// the hub links none.
pub fn letters_or_default(found: Vec<String>) -> (r: Vec<String>)
    ensures
        found.len() > 0 ==> r.deep_view() == found.deep_view(),
        found.len() == 0 ==> r.deep_view() == default_letters(),
{
    if found.len() > 0 {
        return found;
    }
    let mut r: Vec<String> = Vec::new();
    r.push(String::from_str("0-9"));
    r.push(String::from_str("a"));
    r.push(String::from_str("b"));
    r.push(String::from_str("c"));
    r.push(String::from_str("d"));
    r.push(String::from_str("e"));
    r.push(String::from_str("f"));
    r.push(String::from_str("g"));
    r.push(String::from_str("h"));
    r.push(String::from_str("i"));
    r.push(String::from_str("j"));
    r.push(String::from_str("k"));
    r.push(String::from_str("l"));
    r.push(String::from_str("m"));
    r.push(String::from_str("n"));
    r.push(String::from_str("o"));
    r.push(String::from_str("p"));
    r.push(String::from_str("q"));
    r.push(String::from_str("r"));
    r.push(String::from_str("s"));
    r.push(String::from_str("t"));
    r.push(String::from_str("u"));
    r.push(String::from_str("v"));
    r.push(String::from_str("w"));
    r.push(String::from_str("x"));
    r.push(String::from_str("y"));
    r.push(String::from_str("z"));
    assert(r.deep_view() =~= default_letters());
    r
}

/// The URL of a letter's first page under the hub.
pub fn letter_page_url(hub_url: &str, letter: &str) -> (r: String)
    ensures
        r@ == join_url_spec(hub_url@, letter@ + seq!['/']),
{
    let mut p = chars_of(letter);
    p.push('/');
    assert(p@ =~= letter@ + seq!['/']);
    let ps = string_of(&p);
    join_url(hub_url, ps.as_str())
}

/// The site path of a letter's listing, below which its pages are numbered.
pub fn letter_listing_path(letter: &str) -> (r: String)
    ensures
        r@ == "/all-games/"@ + letter@ + seq!['/'],
{
    let mut p = chars_of("/all-games/");
    push_str_vec(&mut p, letter);
    p.push('/');
    string_of(&p)
}

/// Pages followed per letter, the first included.
pub open spec fn max_letter_pages() -> int {
    60
}

/// The walk of one letter: the links gathered so far, the numbered pages
/// still to fetch (the last one next), and the pages fetched.
pub struct LetterCrawl {
    pub links: Vec<GameLink>,
    pub pending: Vec<String>,
    pub pages: usize,
}

impl LetterCrawl {
    /// The walk after the letter's first page.
    pub fn start(html: &str, base_url: &str, listing_path: &str) -> (r: LetterCrawl)
        requires
            anchors(html@) is Some,
        ensures
            game_links_view(r.links@) == game_links_from(anchors(html@).unwrap(), base_url@),
            strictly_sorted(r.pending.deep_view()),
            r.pending.deep_view().to_set() == page_candidates(anchors(html@).unwrap(), listing_path@).to_set(),
            r.pages == 1,
    {
        let links = extract_game_links(html, base_url);
        let pending = pagination_paths(html, listing_path);
        LetterCrawl { links, pending, pages: 1 }
    }

    /// The next page to fetch: the last one queued, unless nothing is
    /// queued or the page bound is reached (then the walk ends).
    pub fn next_path(&mut self) -> (r: Option<String>)
        ensures
            old(self).pending.len() == 0 || old(self).pages >= max_letter_pages() ==> r is None,
            old(self).pending.len() > 0 && old(self).pages < max_letter_pages() ==> (r matches Some(p)
                && p@ == old(self).pending.deep_view().last() && final(self).pending.deep_view()
                == old(self).pending.deep_view().drop_last()),
            final(self).links@ == old(self).links@,
            final(self).pages == old(self).pages,
    {
        if self.pending.len() == 0 || self.pages >= 60 {
            return None;
        }
        let p = self.pending.pop().unwrap();
        proof {
            assert(self.pending.deep_view() =~= old(self).pending.deep_view().drop_last());
        }
        Some(p)
    }

    /// A fetched page at `path`: its links join the walk and its deeper
    /// pages are queued after the others.
    pub fn page_fetched(&mut self, html: &str, path: &str, base_url: &str)
        requires
            anchors(html@) is Some,
            old(self).pages < max_letter_pages(),
        ensures
            game_links_view(final(self).links@) == game_links_view(old(self).links@) + game_links_from(
                anchors(html@).unwrap(),
                base_url@,
            ),
            final(self).pending.deep_view().take(old(self).pending.len() as int) == old(self).pending.deep_view(),
            final(self).pending.len() >= old(self).pending.len(),
            strictly_sorted(final(self).pending.deep_view().skip(old(self).pending.len() as int)),
            final(self).pending.deep_view().skip(old(self).pending.len() as int).to_set() == page_candidates(
                anchors(html@).unwrap(),
                path@,
            ).to_set(),
            final(self).pages == old(self).pages + 1,
    {
        let ghost before = self.pending.deep_view();
        let ghost links_before = game_links_view(self.links@);
        let mut found = extract_game_links(html, base_url);
        let ghost fv = game_links_view(found@);
        self.links.append(&mut found);
        assert(game_links_view(self.links@) =~= links_before + fv);
        let mut more = pagination_paths(html, path);
        let ghost mv = more.deep_view();
        self.pending.append(&mut more);
        assert(self.pending.deep_view() =~= before + mv);
        assert(self.pending.deep_view().take(before.len() as int) =~= before);
        assert(self.pending.deep_view().skip(before.len() as int) =~= mv);
        self.pages = self.pages + 1;
    }
}

} // verus!
