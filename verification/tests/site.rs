use bones::site::{asset_ver, index_page, listen_addr, replace_all, store_url, web_dir};

#[test]
fn assets_are_versioned_by_the_latest_change() {
    assert_eq!(asset_ver(&vec![Some(3), None, Some(9), Some(5)], Some(100)), "9");
    assert_eq!(asset_ver(&vec![None, Some(0)], Some(100)), "100");
    assert_eq!(asset_ver(&vec![], None), "1");
}

#[test]
fn page_links_carry_the_version() {
    let page = "<link href=\"/styles.css\"><script src=\"/app.js\"></script><a href=\"/styles.css\">";
    assert_eq!(
        index_page(Some(page.into()), "7"),
        "<link href=\"/styles.css?v=7\"><script src=\"/app.js?v=7\"></script><a href=\"/styles.css?v=7\">"
    );
    assert_eq!(
        index_page(None, "7"),
        "<p>Bones UI missing — run from the project root.</p>"
    );
}

#[test]
fn replacing_is_that_of_std() {
    for (s, from, to) in [
        ("", "a", "b"),
        ("aaa", "aa", "b"),
        ("aXbX", "X", "XX"),
        ("—é—", "—", ""),
        ("abc", "abcd", "x"),
        ("abab", "ab", "ab"),
    ] {
        assert_eq!(replace_all(s, from, to), s.replace(from, to));
    }
}

#[test]
fn page_is_looked_for_in_order() {
    let places = |a, b| vec![("web".to_string(), a), ("src/web".to_string(), b)];
    assert_eq!(web_dir(Some("here".into()), places(true, true)), "here");
    assert_eq!(web_dir(None, places(false, true)), "src/web");
    assert_eq!(web_dir(None, places(true, true)), "web");
    assert_eq!(web_dir(None, places(false, false)), "web");
}

#[test]
fn configuration_has_defaults() {
    assert_eq!(listen_addr(None), "0.0.0.0:8080");
    assert_eq!(listen_addr(Some("127.0.0.1:1".into())), "127.0.0.1:1");
    assert_eq!(store_url(None), None);
    assert_eq!(store_url(Some(String::new())), None);
    assert_eq!(store_url(Some("redis://h".into())), Some("redis://h".to_string()));
}
