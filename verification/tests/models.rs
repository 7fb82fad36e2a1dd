use autogamivoid::json::reply_json;
use autogamivoid::models::{
    parse_admin_games, parse_cursor, site_published, GamivoidGamePatch, SourceLabel, SourcePageDetails, Taxonomy,
};

#[test]
fn taxonomy_exact_match_is_case_insensitive() {
    let tax = Taxonomy { categories: vec!["Action".into(), "RPG".into()] };
    assert_eq!(tax.exact_match("action"), Some("Action".into()));
    assert_eq!(tax.exact_match("Action"), Some("Action".into()));
    assert_eq!(tax.exact_match("Shooter"), None);
    assert_eq!(tax.first_present(&["Shooter", "RPG"]), Some("RPG".into()));
}

#[test]
fn exact_match_trims_the_candidate() {
    let tax = Taxonomy { categories: vec!["Action".into()] };
    assert_eq!(tax.exact_match("  ACTION "), Some("Action".into()));
}

#[test]
fn patch_builders_set_category_and_at_most_30_tags() {
    let tags: Vec<String> = (0..40).map(|i| format!("t{i}")).collect();
    let p = GamivoidGamePatch::default().with_category("RPG").with_tags(&tags);
    assert_eq!(p.category.as_deref(), Some("RPG"));
    assert_eq!(p.tags.as_ref().map(|t| t.len()), Some(30));
    assert_eq!(p.tags.as_ref().unwrap()[29], "t29");
    assert!(p.version.is_none());
}

#[test]
fn empty_details_are_empty() {
    assert!(SourcePageDetails::default().is_empty());
    let d = SourcePageDetails { title: Some("x".into()), ..Default::default() };
    assert!(!d.is_empty());
    assert_eq!(SourceLabel::Steamunlocked.name(), "steamunlocked");
}

#[test]
fn admin_list_parses_wrapped_and_cursor_shapes() {
    let wrapped = reply_json(r#"{"games":[{"slug":"a","published":true},{"slug":"b"}],"hasMore":false}"#);
    let games = parse_admin_games(&wrapped);
    assert_eq!(games.len(), 2);
    assert_eq!(games[0].slug, "a");
    assert!(games[0].published);
    assert!(!games[1].published);
    assert_eq!(parse_cursor(&wrapped), Some((false, None)));
}

#[test]
fn admin_items_that_do_not_read_are_dropped() {
    let data = reply_json(
        r#"{"data":[{"slug":"a","title":null},{"title":"no slug"},{"slug":"b","published":"yes"},["c","C",true],["d","x",true,1],"e"]}"#,
    );
    let games = parse_admin_games(&data);
    let slugs: Vec<&str> = games.iter().map(|g| g.slug.as_str()).collect();
    assert_eq!(slugs, vec!["a", "c"]);
    assert!(games[0].title.is_none());
    assert_eq!(games[1].title.as_deref(), Some("C"));
    assert!(games[1].published);
    assert!(parse_admin_games(&reply_json("not json")).is_empty());
    assert_eq!(
        parse_cursor(&reply_json(r#"{"hasMore":true,"nextCursor":"abc"}"#)),
        Some((true, Some("abc".to_string())))
    );
    assert_eq!(parse_cursor(&reply_json(r#"{"nextCursor":"abc"}"#)), None);
}

#[test]
fn taxonomy_reads_strings_and_named_objects() {
    let t = Taxonomy::from_json(&reply_json(r#"{"categories":["Action",{"slug":"rpg"},{"id":7,"title":"Puzzle"},"  ",3]}"#));
    assert_eq!(t.categories, vec!["Action", "rpg", "Puzzle"]);
    let bare = Taxonomy::from_json(&reply_json(r#"[{"name":"Indie"}]"#));
    assert_eq!(bare.categories, vec!["Indie"]);
    assert!(Taxonomy::from_json(&reply_json("{}")).categories.is_empty());
}

#[test]
fn site_listing_published_flag() {
    assert!(site_published(&reply_json(r#"{"published":true}"#)));
    assert!(!site_published(&reply_json(r#"{"published":"true"}"#)));
    assert!(!site_published(&reply_json(r#"{}"#)));
}
