use pike::error::PikeError;
use pike::package::{CleanupItem, CleanupKind, SourceType};
use pike::source::flatpak::{
    check_unused_output, contains_remote, dedupe_runtimes, fallback_arch, flatpak_ref,
    is_listed, parse_list_installed_output, parse_remotes_output, parse_search_output,
    parse_unused_output, parse_updates_output, partition_refs,
};
use pike::source::parse_installed_versions;

const FLATPAK_SEARCH_OUTPUT: &str = "Firefox\tFast, private web browser\torg.mozilla.firefox\t136.0\tflathub\nGIMP\tGNU Image Manipulation Program\torg.gimp.GIMP\t2.10.38\tflathub\n";

const FLATPAK_UPDATES_OUTPUT: &str = "Firefox\torg.mozilla.firefox\t137.0\tx86_64\n";

fn lookup<'a>(versions: &'a [(String, String)], key: &str) -> &'a str {
    versions
        .iter()
        .find(|(k, _)| k == key)
        .map(|(_, v)| v.as_str())
        .unwrap()
}

#[test]
fn flatpak_test_parse_search() {
    let packages = parse_search_output(FLATPAK_SEARCH_OUTPUT);
    assert_eq!(packages.len(), 2);

    assert_eq!(packages[0].name, "org.mozilla.firefox");
    assert_eq!(packages[0].version, "136.0");
    assert_eq!(packages[0].source, SourceType::Flatpak);
    assert!(packages[0].arch.is_none());
    assert_eq!(
        packages[0].description.as_ref().unwrap(),
        "Fast, private web browser"
    );

    assert_eq!(packages[1].name, "org.gimp.GIMP");
    assert_eq!(packages[1].version, "2.10.38");
    assert!(packages[1].arch.is_none());
}

#[test]
fn flatpak_search_keeps_display_name() {
    let packages = parse_search_output(FLATPAK_SEARCH_OUTPUT);
    assert_eq!(packages[0].display_name.as_deref(), Some("Firefox"));
    let nameless = parse_search_output("\tdesc\torg.example.App\t1.0\tflathub\n");
    assert_eq!(nameless.len(), 1);
    assert!(nameless[0].display_name.is_none());
}

#[test]
fn test_parse_updates() {
    let updates = parse_updates_output(FLATPAK_UPDATES_OUTPUT);
    assert_eq!(updates.len(), 1);

    assert_eq!(updates[0].name, "org.mozilla.firefox");
    assert_eq!(updates[0].available_version, "137.0");
    assert_eq!(updates[0].source, SourceType::Flatpak);
    assert_eq!(updates[0].arch.as_deref(), Some("x86_64"));
}

#[test]
fn test_parse_installed_versions() {
    let output = "org.mozilla.firefox\t136.0\norg.gimp.GIMP\t2.10.38\n";
    let versions = parse_installed_versions(output, '\t');
    assert_eq!(versions.len(), 2);
    assert_eq!(lookup(&versions, "org.mozilla.firefox"), "136.0");
    assert_eq!(lookup(&versions, "org.gimp.GIMP"), "2.10.38");
}

#[test]
fn installed_versions_later_line_wins_and_empty_keys_skipped() {
    let output = "a\t1\n\t9\nnotab\na\t2\n";
    let versions = parse_installed_versions(output, '\t');
    assert_eq!(versions.len(), 1);
    assert_eq!(lookup(&versions, "a"), "2");
}

const FLATPAK_LIST_INSTALLED_OUTPUT: &str = "Firefox\torg.mozilla.firefox\t136.0\tx86_64\tFast, private web browser\nGIMP\torg.gimp.GIMP\t2.10.38\tx86_64\tGNU Image Manipulation Program\n";

#[test]
fn flatpak_test_parse_list_installed() {
    let packages = parse_list_installed_output(FLATPAK_LIST_INSTALLED_OUTPUT);
    assert_eq!(packages.len(), 2);

    assert_eq!(packages[0].name, "org.mozilla.firefox");
    assert_eq!(packages[0].version, "136.0");
    assert_eq!(packages[0].source, SourceType::Flatpak);
    assert_eq!(packages[0].arch.as_deref(), Some("x86_64"));
    assert_eq!(
        packages[0].description.as_ref().unwrap(),
        "Fast, private web browser"
    );

    assert_eq!(packages[1].name, "org.gimp.GIMP");
    assert_eq!(packages[1].version, "2.10.38");
    assert_eq!(packages[1].arch.as_deref(), Some("x86_64"));
}

#[test]
fn flatpak_test_parse_list_installed_empty() {
    assert!(parse_list_installed_output("").is_empty());
}

#[test]
fn flatpak_test_parse_empty() {
    assert!(parse_search_output("").is_empty());
    assert!(parse_updates_output("").is_empty());
}

const FLATPAK_REMOTES_OUTPUT: &str = "flathub\tFlathub\thttps://dl.flathub.org/repo/\t\nfedora\tFedora Flatpaks\thttps://flatpaks.fedora.org/repo/\tdisabled\n";

#[test]
fn test_parse_remotes() {
    let repos = parse_remotes_output(FLATPAK_REMOTES_OUTPUT);
    assert_eq!(repos.len(), 2);

    assert_eq!(repos[0].id, "flathub");
    assert_eq!(repos[0].name, "Flathub");
    assert_eq!(
        repos[0].url.as_deref(),
        Some("https://dl.flathub.org/repo/")
    );
    assert!(repos[0].enabled);
    assert_eq!(repos[0].source, SourceType::Flatpak);

    assert_eq!(repos[1].id, "fedora");
    assert!(!repos[1].enabled);
}

#[test]
fn test_parse_remotes_empty() {
    assert!(parse_remotes_output("").is_empty());
}

#[test]
fn remotes_options_list_and_missing_columns() {
    let repos = parse_remotes_output("a\n  \nb\tB\t \tgpg-verify, disabled \n");
    assert_eq!(repos.len(), 2);
    assert_eq!(repos[0].id, "a");
    assert_eq!(repos[0].name, "");
    assert!(repos[0].url.is_none());
    assert!(repos[0].enabled);
    assert!(repos[1].url.is_none());
    assert!(!repos[1].enabled);
}

#[test]
fn test_contains_remote() {
    let output = "local-origin\npike-test\n";
    assert!(contains_remote(output, "pike-test"));
    assert!(!contains_remote(output, "flathub"));
    assert!(!contains_remote("", "flathub"));
}

const FLATPAK_UNUSED_OUTPUT: &str = "\nThese runtimes in installation 'system' are pinned and won't be removed; see flatpak-pin(1):\n  runtime/org.freedesktop.Sdk/x86_64/25.08\n\n\n 1.\t   \torg.gnome.Platform\t49\tr\n 2.\t   \torg.gnome.Platform.Locale\t49\tr\n 3.\t   \torg.freedesktop.Platform.codecs-extra\t25.08-extra\tr\n\nProceed with these changes to the system installation? [Y/n]: n\n";

#[test]
fn test_parse_flatpak_unused() {
    let items = parse_unused_output(FLATPAK_UNUSED_OUTPUT, "x86_64");
    assert_eq!(items.len(), 3);
    assert_eq!(items[0].name, "org.gnome.Platform");
    assert_eq!(items[0].version, "49");
    assert_eq!(items[0].kind, CleanupKind::UnusedRuntime);
    assert_eq!(items[0].source, SourceType::Flatpak);
    assert_eq!(items[2].version, "25.08-extra");
    assert!(items.iter().all(|i| i.arch.as_deref() == Some("x86_64")));
}

#[test]
fn test_parse_flatpak_unused_rejects_bare_dot_index() {
    assert!(parse_unused_output(" .\t   \torg.gnome.Platform\t49\tr\n", "x86_64").is_empty());
}

fn runtime_item_arch(name: &str, arch: &str, version: &str) -> CleanupItem {
    CleanupItem {
        source: SourceType::Flatpak,
        kind: CleanupKind::UnusedRuntime,
        name: name.to_string(),
        version: version.to_string(),
        size: None,
        arch: Some(arch.to_string()),
    }
}

fn runtime_item(name: &str, version: &str) -> CleanupItem {
    runtime_item_arch(name, "x86_64", version)
}

fn keys(items: &[CleanupItem]) -> Vec<(String, Option<String>, String)> {
    items
        .iter()
        .map(|i| (i.name.clone(), i.arch.clone(), i.version.clone()))
        .collect()
}

#[test]
fn test_dedupe_runtimes() {
    let items = vec![
        runtime_item("org.gnome.Platform.Locale", "49"),
        runtime_item("org.gnome.Platform", "49"),
        runtime_item_arch("org.gnome.Platform", "i386", "49"),
        runtime_item("org.gnome.Platform", "49"),
        runtime_item("org.gnome.Platform", "48"),
        runtime_item("org.gnome.Platform.Locale", "49"),
    ];
    assert_eq!(
        keys(&dedupe_runtimes(items)),
        keys(&[
            runtime_item_arch("org.gnome.Platform", "i386", "49"),
            runtime_item("org.gnome.Platform", "48"),
            runtime_item("org.gnome.Platform", "49"),
            runtime_item("org.gnome.Platform.Locale", "49"),
        ])
    );
}

#[test]
fn dedupe_keeps_first_listed_of_equal_runtimes() {
    let mut first = runtime_item("org.gnome.Platform", "49");
    first.size = Some(1);
    let mut second = runtime_item("org.gnome.Platform", "49");
    second.size = Some(2);
    let out = dedupe_runtimes(vec![first, second]);
    assert_eq!(out.len(), 1);
    assert_eq!(out[0].size, Some(1));
    let mut no_arch = runtime_item("org.gnome.Platform", "49");
    no_arch.arch = None;
    let out = dedupe_runtimes(vec![runtime_item("org.gnome.Platform", "49"), no_arch]);
    assert_eq!(out.len(), 2);
    assert!(out[0].arch.is_none());
}

#[test]
fn test_partition_refs_item_in_both_lists() {
    let items = vec![runtime_item("org.gnome.Platform", "49")];
    let unused = vec![runtime_item("org.gnome.Platform", "49")];
    let expected = vec!["org.gnome.Platform/x86_64/49".to_string()];
    assert_eq!(
        partition_refs(&items, &unused, &unused),
        (expected.clone(), expected)
    );
}

#[test]
fn test_parse_flatpak_unused_with_arch_column() {
    let output = " 1.\t   \torg.freedesktop.Platform.GL32.default\ti386\t25.08\tr\n 2.\t   \torg.gnome.Platform\tx86_64\t49\tr\n";
    let items = parse_unused_output(output, "aarch64");
    assert_eq!(items.len(), 2);
    assert_eq!(items[0].name, "org.freedesktop.Platform.GL32.default");
    assert_eq!(items[0].arch.as_deref(), Some("i386"));
    assert_eq!(items[0].version, "25.08");
    assert_eq!(items[1].arch.as_deref(), Some("x86_64"));
    assert_eq!(items[1].version, "49");
}

#[test]
fn test_flatpak_ref_formatting() {
    assert_eq!(
        flatpak_ref(&runtime_item("org.gnome.Platform", "49")),
        "org.gnome.Platform/x86_64/49"
    );
    assert_eq!(
        flatpak_ref(&runtime_item_arch("org.gnome.Platform", "i386", "49")),
        "org.gnome.Platform/i386/49"
    );
    let mut no_arch = runtime_item("org.gnome.Platform", "49");
    no_arch.arch = None;
    assert_eq!(flatpak_ref(&no_arch), "org.gnome.Platform//49");
}

#[test]
fn test_fallback_arch() {
    assert_eq!(fallback_arch("x86"), "i386");
    assert_eq!(fallback_arch("x86_64"), "x86_64");
    assert_eq!(fallback_arch("aarch64"), "aarch64");
}

#[test]
fn test_check_unused_output() {
    let nothing = "Nothing unused to uninstall\n";
    assert!(parse_unused_output(nothing, "x86_64").is_empty());
    assert!(check_unused_output(nothing, &[]).is_ok());
    assert!(matches!(
        check_unused_output(
            "Proceed with these changes to the system installation? [Y/n]: n",
            &[]
        ),
        Err(PikeError::Parse { .. })
    ));
    let items = parse_unused_output(FLATPAK_UNUSED_OUTPUT, "x86_64");
    assert!(check_unused_output(FLATPAK_UNUSED_OUTPUT, &items).is_ok());
    assert!(matches!(
        check_unused_output("error: No such installation\n", &[]),
        Err(PikeError::Parse { .. })
    ));
}

#[test]
fn check_unused_output_error_text() {
    match check_unused_output("  error: No such installation\n", &[]) {
        Err(PikeError::Parse {
            source_name,
            detail,
        }) => {
            assert_eq!(source_name, "flatpak");
            assert_eq!(
                detail,
                "unexpected output from flatpak uninstall: error: No such installation"
            );
        }
        other => panic!("unexpected {other:?}"),
    }
}

#[test]
fn test_parse_flatpak_unused_rejects_unknown_field_count() {
    let seven = " 1.\t   \torg.gnome.Platform\tx86_64\t49\tr\textra\nNothing unused\n";
    let items = parse_unused_output(seven, "x86_64");
    assert!(items.is_empty());
    assert!(matches!(
        check_unused_output(seven, &items),
        Err(PikeError::Parse { .. })
    ));
}

#[test]
fn test_partition_refs_negative_cases() {
    let unused = vec![runtime_item("org.gnome.Platform", "49")];
    let not_listed = vec![runtime_item("org.gnome.Platform", "48")];
    assert_eq!(
        partition_refs(&not_listed, &unused, &unused),
        (vec![], vec![])
    );

    let mut wrong_kind = runtime_item("org.gnome.Platform", "49");
    wrong_kind.kind = CleanupKind::Orphan;
    assert_eq!(
        partition_refs(&[wrong_kind], &unused, &[]),
        (vec![], vec![])
    );

    let other_arch = vec![runtime_item_arch("org.gnome.Platform", "i386", "49")];
    assert_eq!(
        partition_refs(&other_arch, &unused, &unused),
        (vec![], vec![])
    );

    assert_eq!(
        partition_refs(&unused, &[], &unused),
        (vec![], vec!["org.gnome.Platform/x86_64/49".to_string()])
    );
}

#[test]
fn is_listed_compares_name_arch_and_branch() {
    let unused = vec![runtime_item("org.gnome.Platform", "49")];
    assert!(is_listed(&unused, &runtime_item("org.gnome.Platform", "49")));
    assert!(!is_listed(&unused, &runtime_item("org.gnome.Platform", "48")));
    assert!(!is_listed(&[], &runtime_item("org.gnome.Platform", "49")));
}
