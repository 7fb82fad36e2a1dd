use autogamivoid::crawl::{
    letter_listing_path, letter_page_url, letters_or_default, steamrip_catalog_path,
    steamunlocked_catalog_path, LetterCrawl,
};
use autogamivoid::enrichment::{spy_api_base, store_api_base};

#[test]
fn catalog_paths_are_the_hubs() {
    assert_eq!(steamrip_catalog_path(), "/games-list-page/");
    assert_eq!(steamunlocked_catalog_path(), "/all-games/");
}

#[test]
fn letters_fall_back_to_the_known_set() {
    let letters = letters_or_default(vec![]);
    assert_eq!(letters.len(), 27);
    assert_eq!(letters[0], "0-9");
    assert_eq!(letters[1], "a");
    assert_eq!(letters[26], "z");
    let found = vec!["b".to_string(), "c".to_string()];
    assert_eq!(letters_or_default(found.clone()), found);
}

#[test]
fn letter_urls_and_paths() {
    assert_eq!(
        letter_page_url("https://steamunlocked.org/all-games/", "a"),
        "https://steamunlocked.org/all-games/a/"
    );
    assert_eq!(letter_listing_path("0-9"), "/all-games/0-9/");
}

#[test]
fn letter_crawl_follows_pages_last_first() {
    let first = r#"<a href="/all-games/a/page/2/">2</a><a href="/all-games/a/page/3/">3</a>"#;
    let mut crawl = LetterCrawl::start(first, "https://steamunlocked.org", "/all-games/a/");
    assert_eq!(crawl.pages, 1);
    assert_eq!(crawl.pending, vec!["/all-games/a/page/2/".to_string(), "/all-games/a/page/3/".to_string()]);
    assert_eq!(crawl.next_path(), Some("/all-games/a/page/3/".to_string()));
    crawl.page_fetched(
        r#"<a href="https://steamunlocked.org/doom-free-download/">Doom Free Download</a>"#,
        "/all-games/a/page/3/",
        "https://steamunlocked.org",
    );
    assert_eq!(crawl.pages, 2);
    assert_eq!(crawl.links.len(), 1);
    assert_eq!(crawl.links[0].title, "Doom");
    assert_eq!(crawl.next_path(), Some("/all-games/a/page/2/".to_string()));
    assert_eq!(crawl.next_path(), None);
}

#[test]
fn letter_crawl_stops_at_the_page_bound() {
    let mut crawl = LetterCrawl::start(r#"<a href="/all-games/a/page/2/">2</a>"#, "https://x.org", "/all-games/a/");
    crawl.pages = 60;
    assert_eq!(crawl.next_path(), None);
    assert_eq!(crawl.pending.len(), 1);
}

#[test]
fn steam_bases_default_to_the_public_apis() {
    assert_eq!(store_api_base(&None), "https://store.steampowered.com");
    assert_eq!(spy_api_base(&None), "https://steamspy.com/api.php");
    assert_eq!(store_api_base(&Some("http://127.0.0.1:9".to_string())), "http://127.0.0.1:9");
}
