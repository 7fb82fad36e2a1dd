use autogamivoid::models::SourceLabel;
use autogamivoid::scraper::{
    anchor_text, checked_download_urls, clean_listing_title, decode_entities, extract_download_urls,
    extract_game_links, extract_letter_paths, join_url, pagination_paths, version_from_title,
};

#[test]
fn versions_from_brackets_parens_and_suffixes() {
    assert_eq!(version_from_title("Elden Ring [v1.10]"), Some("1.10".into()));
    assert_eq!(version_from_title("Game Name (v2.3)"), Some("2.3".into()));
    assert_eq!(version_from_title("Game Name (Build 13623225)"), Some("13623225".into()));
    assert_eq!(version_from_title("Game Name (v1.6.1 + Multiplayer)"), Some("1.6.1".into()));
    assert_eq!(version_from_title("Game Name Version 4"), Some("4".into()));
    assert_eq!(version_from_title("Game Name v2.3"), Some("2.3".into()));
    assert_eq!(version_from_title("Plain Game"), None);
}

#[test]
fn cleans_listing_titles() {
    let (title, version) = clean_listing_title("1 Trait Escape Free Download (v1.15)");
    assert_eq!(title, "1 Trait Escape");
    assert_eq!(version.as_deref(), Some("1.15"));

    let (title, version) = clean_listing_title("A Plague Tale: Requiem Free Download (v1.4.0.0)");
    assert_eq!(title, "A Plague Tale: Requiem");
    assert_eq!(version.as_deref(), Some("1.4.0.0"));

    let (title, version) = clean_listing_title("100% Orange Juice Free Download (Build 13623225)");
    assert_eq!(title, "100% Orange Juice");
    assert_eq!(version.as_deref(), Some("13623225"));

    let (title, version) = clean_listing_title("Half-Life 2 Free Download");
    assert_eq!(title, "Half-Life 2");
    assert_eq!(version, None);
}

#[test]
fn filehost_navigation_pages_are_not_downloads() {
    let html = r#"
            <a class="su-dl-primary" href="https://uploadhaven.com/download/abc123">Download</a>
            <a href="https://uploadhaven.com/account/register">Register</a>
            <a href="https://megadb.net/login">Login</a>
            <a href="https://megadb.net/dmca">DMCA</a>
        "#;
    let flat = html.replace('\n', " ");
    let urls = extract_download_urls(&flat, &SourceLabel::Steamunlocked);
    assert_eq!(urls, vec!["https://uploadhaven.com/download/abc123".to_string()]);
}

#[test]
fn extracts_links_and_skips_nav() {
    let html = r#"
            <html><body>
            <a href="/category/action/">Action</a>
            <a href="/page/2/">2</a>
            <a href="https://site.test/game-one-download/">Game One</a>
            <a href="/game-two-free-download/">Game Two</a>
            <a href="https://other.test/game-three/">Game Three</a>
            </body></html>
        "#;
    let links = extract_game_links(html, "https://site.test");
    let urls: Vec<&str> = links.iter().map(|l| l.url.as_str()).collect();
    assert!(urls.contains(&"https://site.test/game-one-download/"));
    assert!(urls.contains(&"https://site.test/game-two-free-download/"));
    assert!(urls.contains(&"https://other.test/game-three/"));
    assert!(!urls.iter().any(|u| u.contains("/category/")));
    assert!(!urls.iter().any(|u| u.contains("/page/")));
}

#[test]
fn extracts_letter_paths_from_hub() {
    let html = r#"
            <a class="su-az-letter" href="/all-games/">All</a>
            <a class="su-az-letter" href="/all-games/0-9/">0-9</a>
            <a class="su-az-letter" href="/all-games/a/">A</a>
            <a class="su-az-letter" href="/all-games/b/">B</a>
            <a href="https://site.test/category/action/">Action</a>
        "#;
    let letters = extract_letter_paths(html);
    assert!(letters.contains(&"0-9".to_string()));
    assert!(letters.contains(&"a".to_string()));
    assert!(letters.contains(&"b".to_string()));
    assert_eq!(letters.len(), 3);
}

#[test]
fn finds_pagination_paths() {
    let html = r#"
            <a href="/all-games/s/page/2/">2</a>
            <a href="/all-games/s/page/3/">3</a>
            <a href="/all-games/s/page/2/">2 again</a>
        "#;
    let pages = pagination_paths(html, "/all-games/s/");
    assert_eq!(pages, vec!["/all-games/s/page/2/", "/all-games/s/page/3/"]);
}

#[test]
fn anchor_text_strips_nested_tags() {
    assert_eq!(anchor_text("<b>Half</b>-Life 2"), "Half-Life 2");
}

#[test]
fn join_url_handles_relative_paths() {
    assert_eq!(join_url("https://steamrip.com", "/game-x/"), "https://steamrip.com/game-x/");
    assert_eq!(
        join_url("https://steamunlocked.org/all-games", "a/"),
        "https://steamunlocked.org/all-games/a/"
    );
}

#[test]
fn decodes_common_entities_in_titles() {
    assert_eq!(decode_entities("Birds Aren&#039;t Real"), "Birds Aren't Real");
    assert_eq!(decode_entities("Rock &amp; Roll"), "Rock & Roll");
    assert_eq!(decode_entities("A&quot;B"), "A\"B");
    assert_eq!(decode_entities("Caf&eacute;"), "Café");
    assert_eq!(decode_entities("x&#39;y"), "x'y");
    assert_eq!(decode_entities("x&#039;y"), "x'y");
    assert_eq!(decode_entities("plain title"), "plain title");
}

#[test]
fn protocol_relative_and_duplicate_download_links() {
    let flat = r#"<a href="//megadb.net/abc">x</a> <a href="https://megadb.net/abc">y</a> <a href="ftp://gofile.io/z">z</a>"#;
    let urls = extract_download_urls(flat, &SourceLabel::Steamrip);
    assert_eq!(urls, vec!["https://megadb.net/abc".to_string()]);
}

#[test]
fn named_download_fallback_skips_source_sites() {
    let flat = r#"<a href="https://steamrip.com/x">DOWNLOAD HERE</a> <a href="https://files.test/g">Download here</a> <a href="https://files.test/h#top">Download</a>"#;
    let urls = extract_download_urls(flat, &SourceLabel::Steamrip);
    assert_eq!(urls, vec!["https://files.test/g".to_string()]);
}

#[test]
fn primary_window_cutting_a_character_is_undefined() {
    // The 600-byte window after the marker ends inside the two-byte 'é'.
    let mut flat = String::from("su-dl-primary");
    flat.push_str(&"a".repeat(586));
    flat.push('é');
    assert!(checked_download_urls(&flat, &SourceLabel::Steamunlocked).is_none());
    let mut ok = String::from("su-dl-primary");
    ok.push_str(&"a".repeat(587));
    ok.push('é');
    assert_eq!(checked_download_urls(&ok, &SourceLabel::Steamunlocked), Some(vec![]));
}

#[test]
fn bare_build_word_outside_brackets_is_no_version() {
    assert_eq!(version_from_title("Game Build 42"), None);
    assert_eq!(version_from_title("Game (Build 42)"), Some("42".into()));
}
