use pike::config::Config;
use pike::package::{Package, SourceType};
use pike::package::SourceType::{Apt, Dnf, Flatpak};
use pike::util::{filter_and_sort_packages, search_rank, sort_by_source, truncate_str};
use pike::version::compare_versions;
use std::cmp::Ordering;

#[test]
fn test_compare_versions_numeric_segments() {
    assert_eq!(
        compare_versions("7.2.10-200.fc44.x86_64", "7.2.9-200.fc44.x86_64"),
        Ordering::Greater
    );
    assert_eq!(
        compare_versions("6.8.0-100-generic", "6.8.0-45-generic"),
        Ordering::Greater
    );
    assert_eq!(
        compare_versions("7.2.5-200.fc44.x86_64", "7.2.5-200.fc44.x86_64"),
        Ordering::Equal
    );
    assert_eq!(compare_versions("7.2.5", "7.2.5.1"), Ordering::Less);
    assert_eq!(compare_versions("1.0a", "1.0"), Ordering::Greater);
}

#[test]
fn test_compare_versions_tilde_caret() {
    assert_eq!(compare_versions("1.0~rc1", "1.0"), Ordering::Less);
    assert_eq!(compare_versions("1.0~rc1", "1.0~rc2"), Ordering::Less);
    assert_eq!(compare_versions("1.0", "1.0~rc1"), Ordering::Greater);
    assert_eq!(compare_versions("1.0^git1", "1.0"), Ordering::Greater);
    assert_eq!(compare_versions("1.0^git1", "1.0.1"), Ordering::Less);
    assert_eq!(compare_versions("1.0^git1", "1.0^git2"), Ordering::Less);
}

#[test]
fn test_compare_versions_leading_zeros_and_debian() {
    assert_eq!(compare_versions("1.01", "1.1"), Ordering::Equal);
    assert_eq!(
        compare_versions("6.1.0-25-amd64", "6.1.0-3-amd64"),
        Ordering::Greater
    );
}

#[test]
fn compare_versions_numbers_above_letters_and_separators() {
    assert_eq!(compare_versions("1.1", "1.a"), Ordering::Greater);
    assert_eq!(compare_versions("1.a", "1.1"), Ordering::Less);
    assert_eq!(compare_versions("1_0", "1.0"), Ordering::Equal);
    assert_eq!(compare_versions("", ""), Ordering::Equal);
    assert_eq!(compare_versions("~", ""), Ordering::Less);
    assert_eq!(compare_versions("^", ""), Ordering::Greater);
    assert_eq!(compare_versions("abc", "abd"), Ordering::Less);
}

fn pkg(name: &str, source: SourceType, desc: &str) -> Package {
    Package {
        name: name.into(),
        display_name: None,
        version: String::new(),
        source,
        arch: None,
        description: Some(desc.into()),
    }
}

fn config() -> Config {
    Config::for_host("x86_64")
}

#[test]
fn test_search_rank_orders_exact_prefix_contains_description() {
    let mut firefox_flatpak = pkg("org.mozilla.firefox", Flatpak, "Web browser");
    firefox_flatpak.display_name = Some("Firefox".into());
    let mut packages = vec![
        pkg("cargo-firefox-marionette", Dnf, "Marionette client"),
        pkg("org.mozilla.firefox.BaseApp", Flatpak, "Base app"),
        pkg("firefox-langpacks", Dnf, "Language packs"),
        pkg("libgtk", Dnf, "Used by Firefox and others"),
        firefox_flatpak,
        pkg("firefox", Dnf, "Mozilla Firefox Web browser"),
        pkg("zlib", Dnf, "Compression"),
    ];
    filter_and_sort_packages(&mut packages, &config(), " FireFox ");
    let names: Vec<&str> = packages.iter().map(|p| p.name.as_str()).collect();
    assert_eq!(
        names,
        vec![
            "firefox",
            "org.mozilla.firefox",
            "firefox-langpacks",
            "cargo-firefox-marionette",
            "org.mozilla.firefox.BaseApp",
            "libgtk",
            "zlib",
        ]
    );
}

#[test]
fn test_search_rank_full_name_for_non_flatpak() {
    let mut packages = vec![
        pkg("python3.12", Dnf, "Python"),
        pkg("org.example.12", Flatpak, "Example"),
    ];
    filter_and_sort_packages(&mut packages, &config(), "12");
    let names: Vec<&str> = packages.iter().map(|p| p.name.as_str()).collect();
    assert_eq!(names, vec!["org.example.12", "python3.12"]);
    assert_eq!(search_rank(&packages[1], "12"), 2);
}

#[test]
fn test_search_rank_display_name() {
    let mut spotify = pkg(
        "com.spotify.Client",
        Flatpak,
        "Online music streaming service",
    );
    spotify.display_name = Some("Spotify".into());
    assert_eq!(search_rank(&spotify, "spotify"), 0);
    let mut packages = vec![pkg("lpf-spotify-client", Dnf, "Spotify client"), spotify];
    filter_and_sort_packages(&mut packages, &config(), "spotify");
    let names: Vec<&str> = packages.iter().map(|p| p.name.as_str()).collect();
    assert_eq!(names, vec!["com.spotify.Client", "lpf-spotify-client"]);
}

#[test]
fn test_search_rank_last_segment_is_prefix_tier() {
    let client = pkg("com.dropbox.Client", Flatpak, "Dropbox");
    assert_eq!(search_rank(&client, "client"), 1);
    assert_eq!(search_rank(&client, "dropbox"), 2);
    let exact = pkg("com.dropbox.client", Flatpak, "Dropbox");
    assert_eq!(search_rank(&exact, "com.dropbox.client"), 0);
}

#[test]
fn test_search_empty_query_keeps_source_name_order() {
    let mut packages = vec![
        pkg("zlib", Apt, "Compression"),
        pkg("org.b.App", Flatpak, "B"),
        pkg("vim", Dnf, "Editor"),
        pkg("bash", Dnf, "Shell"),
    ];
    filter_and_sort_packages(&mut packages, &config(), "  ");
    let names: Vec<&str> = packages.iter().map(|p| p.name.as_str()).collect();
    assert_eq!(names, vec!["bash", "vim", "org.b.App", "zlib"]);
}

#[test]
fn test_search_rank_without_description() {
    let mut package = pkg("libfoo", Dnf, "");
    package.description = None;
    assert_eq!(search_rank(&package, "foo"), 2);
    assert_eq!(search_rank(&package, "bar"), 4);
}

#[test]
fn test_search_equal_rank_ties_by_source_then_name() {
    let mut packages = vec![
        pkg("vim-b", Apt, "Editor"),
        pkg("org.vim.Vim-x", Flatpak, "Editor"),
        pkg("vim-z", Dnf, "Editor"),
        pkg("vim-a", Dnf, "Editor"),
        pkg("vim-a", Apt, "Editor"),
    ];
    filter_and_sort_packages(&mut packages, &config(), "vim");
    let names: Vec<(SourceType, &str)> = packages
        .iter()
        .map(|p| (p.source, p.name.as_str()))
        .collect();
    assert_eq!(
        names,
        vec![
            (Dnf, "vim-a"),
            (Dnf, "vim-z"),
            (Flatpak, "org.vim.Vim-x"),
            (Apt, "vim-a"),
            (Apt, "vim-b"),
        ]
    );
}

#[test]
fn search_hides_architectures_not_configured() {
    let mut other = pkg("tool", SourceType::Dnf, "t");
    other.arch = Some("s390x".into());
    let mut native = pkg("tool", SourceType::Dnf, "t");
    native.arch = Some("x86_64".into());
    let mut packages = vec![other, native];
    filter_and_sort_packages(&mut packages, &config(), "tool");
    assert_eq!(packages.len(), 1);
    assert_eq!(packages[0].arch.as_deref(), Some("x86_64"));
}

#[test]
fn sort_by_source_orders_source_then_name() {
    let mut packages = vec![
        pkg("b", SourceType::Apt, ""),
        pkg("z", SourceType::Dnf, ""),
        pkg("a", SourceType::Flatpak, ""),
        pkg("a", SourceType::Dnf, ""),
    ];
    sort_by_source(&mut packages);
    let names: Vec<(SourceType, &str)> = packages
        .iter()
        .map(|p| (p.source, p.name.as_str()))
        .collect();
    assert_eq!(
        names,
        vec![
            (SourceType::Dnf, "a"),
            (SourceType::Dnf, "z"),
            (SourceType::Flatpak, "a"),
            (SourceType::Apt, "b"),
        ]
    );
}

#[test]
fn truncate_marks_cut_text() {
    assert_eq!(truncate_str("hello", 10), "hello");
    assert_eq!(truncate_str("hello", 3), "he\u{2026}");
    assert_eq!(truncate_str("hello", 0), "");
}
