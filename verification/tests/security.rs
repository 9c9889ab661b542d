use stashly::security::{
    ensure_within_root, full_components_of, is_allowed_browser_url, product_directory, product_directory_with, safe_filename,
    sanitize_path_component,
};
use stashly::weburl::WebUrl;

#[test]
fn sanitizes_windows_names_and_reserved_characters() {
    assert_eq!(sanitize_path_component("CON.txt", "fallback"), "_CON.txt");
    assert_eq!(sanitize_path_component("a:b/c", "fallback"), "a_b_c");
}

#[test]
fn rejects_filename_traversal() {
    assert!(safe_filename("../secret.txt").is_err());
    assert!(safe_filename("C:\\secret.txt").is_err());
    assert!(safe_filename("ok.zip").is_ok());
}

#[test]
fn browser_allowlist_rejects_lookalike_hosts() {
    assert!(is_allowed_browser_url(&WebUrl::parse("https://accounts.booth.pm/library").unwrap()));
    assert!(!is_allowed_browser_url(&WebUrl::parse("https://booth.pm.example.test/").unwrap()));
}

#[test]
fn sanitizing_trims_falls_back_and_truncates() {
    assert_eq!(sanitize_path_component("  name. . ", "fallback"), "name");
    assert_eq!(sanitize_path_component(" ... ", "fallback"), "fallback");
    assert_eq!(sanitize_path_component("lpt3.tar.gz", "x"), "_lpt3.tar.gz");
    assert_eq!(sanitize_path_component(&"a".repeat(200), "x").chars().count(), 120);
}

#[test]
fn product_directories_are_sanitized_below_the_root() {
    let dir = product_directory("/library", "Moon:Shop", "", 123, 456);
    assert_eq!(dir, "/library/Moon_Shop/名称未取得の商品 [booth-123]/variation-456");
    let dir = product_directory("/library/", "", "Star", -1, 0);
    assert_eq!(dir, "/library/ショップ未取得/Star [booth--1]/variation-0");
    assert!(ensure_within_root("/library", &dir).is_ok());
}

#[test]
fn paths_outside_the_root_are_refused() {
    assert!(ensure_within_root("/library", "/library").is_ok());
    assert!(ensure_within_root("/library", "/library/a/b").is_ok());
    assert!(ensure_within_root("/library", "/libraryx/a").is_err());
    assert!(ensure_within_root("/library", "/other").is_err());
}

#[test]
fn product_directories_join_with_the_given_separator() {
    let dir = product_directory_with("C:\\Library", "Shop", "Prod", 7, 8, '\\');
    assert_eq!(dir, "C:\\Library\\Shop\\Prod [booth-7]\\variation-8");
    let dir = product_directory_with("/lib", "Shop", "Prod", 7, 8, '/');
    assert_eq!(dir, "/lib/Shop/Prod [booth-7]/variation-8");
}

#[test]
fn product_directories_add_three_components_and_depend_on_the_item() {
    let root: Vec<char> = "/library/books".chars().collect();
    let dir = product_directory_with("/library/books", "a/b", "..", 5, 6, '/');
    let chars: Vec<char> = dir.chars().collect();
    let root_components = full_components_of(&root, false);
    let components = full_components_of(&chars, false);
    assert_eq!(components.len(), root_components.len() + 3);
    assert_eq!(&components[..root_components.len()], &root_components[..]);
    let other = product_directory_with("/library/books", "a/b", "..", 50, 6, '/');
    assert_ne!(dir, other);
    assert!(ensure_within_root("/library/books", &dir).is_ok());
}

#[test]
fn sanitized_names_never_have_a_device_stem() {
    for name in ["con", "CON.txt", "nul.", " aux ", "com1.tar.gz", "LPT9", "prn..txt"] {
        let sanitized = sanitize_path_component(name, "x");
        let stem = sanitized.split('.').next().unwrap().to_ascii_lowercase();
        for device in ["con", "prn", "aux", "nul", "com1", "com9", "lpt1", "lpt9"] {
            assert_ne!(stem, device);
        }
        assert!(sanitized.starts_with('_'));
    }
}

#[test]
fn sanitizing_twice_changes_nothing() {
    for name in ["  name. . ", "CON.txt", "a:b/c", " ... ", "x\ty.", "nul", "ok"] {
        let once = sanitize_path_component(name, "unnamed");
        assert_eq!(sanitize_path_component(&once, "unnamed"), once);
    }
}

#[test]
fn product_directories_below_a_bare_drive() {
    let dir = product_directory_with("C:", "Shop", "Prod", 1, 2, '\\');
    assert_eq!(dir, "C:Shop\\Prod [booth-1]\\variation-2");
    let root: Vec<char> = "C:".chars().collect();
    let chars: Vec<char> = dir.chars().collect();
    let root_components = full_components_of(&root, true);
    let components = full_components_of(&chars, true);
    assert_eq!(root_components, vec![vec!['c', ':']]);
    assert_eq!(components.len(), 4);
    assert_eq!(components[1].iter().collect::<String>(), "Shop");
    assert!(ensure_within_root("C:", &dir).is_ok());
    assert!(ensure_within_root("c:\\lib", "C:\\lib\\x").is_ok());
    assert!(ensure_within_root("C:\\lib", "C:lib\\x").is_err());
    assert!(ensure_within_root("", "/anything").is_ok());
}
