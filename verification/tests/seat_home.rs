use moonshine::seat_home::{sanitize_owner, seat_home_path};
use moonshine::text::{chars_of, decimal_string, join_path, replace_all};

#[test]
fn friendly_names_stay_readable() {
    assert_eq!(sanitize_owner("Alice-B_2.0"), "Alice-B_2.0");
}

#[test]
fn unsafe_characters_are_dropped() {
    assert_eq!(sanitize_owner("../a b/\u{e9}{seat}"), "..abseat");
    assert_eq!(sanitize_owner("AB:CD:EF"), "ABCDEF");
}

#[test]
fn nothing_left_falls_back_to_default() {
    assert_eq!(sanitize_owner(""), "default");
    assert_eq!(sanitize_owner("/ :"), "default");
}

#[test]
fn names_that_lead_out_of_their_directory_fall_back_to_default() {
    assert_eq!(sanitize_owner("."), "default");
    assert_eq!(sanitize_owner(".."), "default");
    assert_eq!(sanitize_owner("/../"), "default");
    assert_eq!(sanitize_owner("..."), "...");
    assert_eq!(sanitize_owner(".a"), ".a");
    assert_eq!(seat_home_path("/srv/{owner}", Some(0), ".."), "/srv/default");
}

#[test]
fn home_is_as_deep_as_its_template() {
    let depth = |s: &str| s.matches('/').count();
    for owner in ["a/b", "../..", "bob", ""] {
        assert_eq!(depth(&seat_home_path("/h/{seat}/{owner}", Some(3), owner)), 3);
    }
}

#[test]
fn sanitizing_again_changes_nothing() {
    let once = sanitize_owner("a/b c");
    assert_eq!(sanitize_owner(&once), once);
}

#[test]
fn placeholders_are_expanded() {
    assert_eq!(seat_home_path("/h/{owner}", Some(3), "al ice"), "/h/alice");
    assert_eq!(seat_home_path("/h/{seat}", Some(12), "alice"), "/h/12");
    assert_eq!(seat_home_path("/h/{seat}", None, "alice"), "/h/single");
    assert_eq!(seat_home_path("/{seat}/{owner}/{seat}", Some(0), "x"), "/0/x/0");
    assert_eq!(seat_home_path("/h/{other}", Some(0), "x"), "/h/{other}");
}

#[test]
fn owner_home_is_the_same_on_every_slot() {
    assert_eq!(seat_home_path("/h/{owner}", Some(0), "bob"), seat_home_path("/h/{owner}", Some(1), "bob"));
    assert_ne!(seat_home_path("/h/{owner}", Some(0), "bob"), seat_home_path("/h/{owner}", Some(0), "eve"));
}

#[test]
fn seat_home_is_the_same_for_every_client() {
    assert_eq!(seat_home_path("/h/{seat}", Some(1), "bob"), seat_home_path("/h/{seat}", Some(1), "eve"));
    assert_ne!(seat_home_path("/h/{seat}", Some(1), "bob"), seat_home_path("/h/{seat}", Some(11), "bob"));
}

#[test]
fn replacement_is_leftmost_and_not_repeated() {
    assert_eq!(replace_all("aaa", "aa", "b"), "ba");
    assert_eq!(replace_all("xyx", "x", "xx"), "xxyxx");
    assert_eq!(replace_all("", "x", "y"), "");
    assert_eq!(replace_all("h\u{e9}llo", "\u{e9}", "e"), "hello");
    assert_eq!(replace_all("{{seat}}", "{seat}", "7"), "{{seat}}".replace("{seat}", "7"));
}

#[test]
fn numbers_are_written_in_base_ten() {
    assert_eq!(decimal_string(0), "0");
    assert_eq!(decimal_string(10), "10");
    assert_eq!(decimal_string(9075), "9075");
    assert_eq!(decimal_string(usize::MAX), usize::MAX.to_string());
}

#[test]
fn paths_are_joined_with_one_separator() {
    assert_eq!(join_path("/home", "x"), "/home/x");
    assert_eq!(join_path("/home/", "x"), "/home/x");
    assert_eq!(join_path("", "x"), "x");
    for base in ["/home", "/home/", "", "a"] {
        let joined = std::path::PathBuf::from(base).join(".local/share/Steam");
        assert_eq!(join_path(base, ".local/share/Steam"), joined.display().to_string());
    }
    assert_eq!(chars_of("a\u{e9}"), vec!['a', '\u{e9}']);
}
