use pike::cli::{
    clean_line, cleanup_version, daemon_interval, english_plural, format_grouped_updates,
    format_interval, format_update_counts, name_from_url, next_keep_kernels, parse_repo_method,
    parse_source_filter, parse_tab, plural_key, polish_plural, reload_daemon_settings,
    should_notify, split_clean_preview, waybar_icons, waybar_output, DaemonRequest,
    DaemonResponse, Tab,
};
use pike::config::IconStyle;
use pike::error::PikeError;
use pike::package::{
    CleanupItem, CleanupKind, PackageUpdate, RepoMethod, SourceType, StatusSummary,
};

fn update(name: &str, source: SourceType, installed: &str, available: &str) -> PackageUpdate {
    PackageUpdate {
        name: name.into(),
        source,
        arch: None,
        installed_version: installed.into(),
        available_version: available.into(),
    }
}

#[test]
fn test_english_plural() {
    assert_eq!(english_plural(0), "other");
    assert_eq!(english_plural(1), "one");
    assert_eq!(english_plural(2), "other");
    assert_eq!(english_plural(100), "other");
}

#[test]
fn test_polish_plural() {
    assert_eq!(polish_plural(1), "one");
    assert_eq!(polish_plural(2), "few");
    assert_eq!(polish_plural(3), "few");
    assert_eq!(polish_plural(4), "few");
    assert_eq!(polish_plural(5), "many");
    assert_eq!(polish_plural(11), "many");
    assert_eq!(polish_plural(12), "many");
    assert_eq!(polish_plural(13), "many");
    assert_eq!(polish_plural(14), "many");
    assert_eq!(polish_plural(21), "many");
    assert_eq!(polish_plural(22), "few");
    assert_eq!(polish_plural(23), "few");
    assert_eq!(polish_plural(24), "few");
    assert_eq!(polish_plural(25), "many");
    assert_eq!(polish_plural(100), "many");
    assert_eq!(polish_plural(101), "many");
    assert_eq!(polish_plural(102), "few");
    assert_eq!(polish_plural(112), "many");
}

#[test]
fn plural_key_picks_the_language_rule() {
    assert_eq!(plural_key("cli.clean-items", 1, false), "cli.clean-items_one");
    assert_eq!(plural_key("cli.clean-items", 3, false), "cli.clean-items_other");
    assert_eq!(plural_key("cli.clean-items", 3, true), "cli.clean-items_few");
    assert_eq!(plural_key("cli.clean-items", 13, true), "cli.clean-items_many");
}

#[test]
fn test_cleanup_version_with_arch() {
    let mut item = CleanupItem {
        source: SourceType::Flatpak,
        kind: CleanupKind::UnusedRuntime,
        name: "org.gnome.Platform".into(),
        version: "47".into(),
        size: None,
        arch: Some("x86_64".into()),
    };
    assert_eq!(cleanup_version(&item), "47 (x86_64)");
    item.arch = None;
    assert_eq!(cleanup_version(&item), "47");
    item.version.clear();
    item.arch = Some("x86_64".into());
    assert_eq!(cleanup_version(&item), "(x86_64)");
}

#[test]
fn clean_line_leaves_out_empty_parts() {
    let item = CleanupItem {
        source: SourceType::Dnf,
        kind: CleanupKind::Orphan,
        name: "libfoo".into(),
        version: String::new(),
        size: None,
        arch: None,
    };
    assert_eq!(clean_line(&item), "[dnf] libfoo");
    let item = CleanupItem {
        source: SourceType::Apt,
        kind: CleanupKind::OldKernel,
        name: "linux-image-6.8.0-45-generic".into(),
        version: "6.8.0-45.45".into(),
        size: Some(1024),
        arch: Some("amd64".into()),
    };
    assert_eq!(
        clean_line(&item),
        "[apt] linux-image-6.8.0-45-generic 6.8.0-45.45 (amd64)"
    );
}

#[test]
fn test_split_clean_preview_keeps_source_order() {
    let preview = vec![
        (SourceType::Dnf, Err(PikeError::Other("bad".into()))),
        (SourceType::Apt, Ok(vec!["a".into(), "b".into()])),
        (SourceType::Flatpak, Err(PikeError::Other("worse".into()))),
    ];
    let (extras, errors) = split_clean_preview(&preview);
    assert_eq!(extras, [(SourceType::Apt, "a"), (SourceType::Apt, "b")]);
    let sources: Vec<_> = errors.iter().map(|(st, _)| *st).collect();
    assert_eq!(sources, [SourceType::Dnf, SourceType::Flatpak]);
    assert_eq!(errors[1].1.message(), "worse");
}

#[test]
fn parse_repo_method_accepts_aliases() {
    assert_eq!(parse_repo_method("repo-file").unwrap(), RepoMethod::RepoFile);
    assert_eq!(parse_repo_method("copr").unwrap(), RepoMethod::Copr);
    assert_eq!(parse_repo_method("base-url").unwrap(), RepoMethod::BaseUrl);
    assert_eq!(parse_repo_method("rpm").unwrap(), RepoMethod::RpmPackage);
    assert_eq!(parse_repo_method("remote-add").unwrap(), RepoMethod::RemoteAdd);
    assert_eq!(
        parse_repo_method("ppa").unwrap_err(),
        "unknown method 'ppa', expected: repofile, copr, baseurl, rpm, remote"
    );
}

#[test]
fn parse_source_filter_names_sources() {
    assert_eq!(parse_source_filter(None).unwrap(), None);
    assert_eq!(
        parse_source_filter(Some("flatpak")).unwrap(),
        Some(SourceType::Flatpak)
    );
    assert_eq!(
        parse_source_filter(Some("snap")).unwrap_err(),
        "unknown source 'snap', expected one of: dnf, flatpak, apt"
    );
}

#[test]
fn parse_tab_accepts_names_letters_and_keys() {
    assert_eq!(parse_tab("updates").unwrap(), Tab::Updates);
    assert_eq!(parse_tab("r").unwrap(), Tab::Repos);
    assert_eq!(parse_tab("9").unwrap(), Tab::Settings);
    assert_eq!(parse_tab("0").unwrap(), Tab::About);
    assert_eq!(
        parse_tab("x").unwrap_err(),
        "unknown tab 'x', expected: search, installed, updates, repos, settings, about"
    );
}

#[test]
fn tabs_cycle_both_ways() {
    assert_eq!(Tab::About.next(), Tab::Search);
    assert_eq!(Tab::Search.prev(), Tab::About);
    for t in Tab::ALL {
        assert_eq!(t.next().prev(), t);
        assert_eq!(t.prev().next(), t);
    }
    assert_eq!(Tab::Settings.key(), "9");
}

#[test]
fn name_from_url_takes_the_last_segment() {
    assert_eq!(
        name_from_url("https://download.docker.com/linux/fedora/docker-ce.repo"),
        "docker-ce"
    );
    assert_eq!(
        name_from_url("https://dl.flathub.org/repo/flathub.flatpakrepo"),
        "flathub"
    );
    assert_eq!(name_from_url("https://example.com/"), "example");
    assert_eq!(name_from_url("http://x.org/.hidden"), "x");
    assert_eq!(name_from_url("file:///srv/local.repo"), "local");
    assert_eq!(name_from_url(""), "");
}

#[test]
fn format_interval_uses_the_largest_whole_unit() {
    assert_eq!(format_interval(3600), "1h");
    assert_eq!(format_interval(7200), "2h");
    assert_eq!(format_interval(0), "0h");
    assert_eq!(format_interval(600), "10min");
    assert_eq!(format_interval(90), "90s");
}

#[test]
fn keep_kernels_cycles_one_to_five() {
    assert_eq!(next_keep_kernels(1), 2);
    assert_eq!(next_keep_kernels(4), 5);
    assert_eq!(next_keep_kernels(5), 1);
    assert_eq!(next_keep_kernels(9), 1);
}

#[test]
fn grouped_updates_are_capped_per_source() {
    let updates = vec![
        update("a", SourceType::Dnf, "1", "2"),
        update("b", SourceType::Flatpak, "", "3"),
        update("c", SourceType::Dnf, "1", "1.1"),
    ];
    assert_eq!(
        format_grouped_updates(&updates, 1),
        " dnf - 2 updates\n  a 1 \u{2192} 2\n  \u{2026} and 1 more\n\n flatpak - 1 update\n  b ? \u{2192} 3"
    );
    assert_eq!(
        format_grouped_updates(&updates, 3),
        " dnf - 2 updates\n  a 1 \u{2192} 2\n  c 1 \u{2192} 1.1\n\n flatpak - 1 update\n  b ? \u{2192} 3"
    );
    assert_eq!(format_grouped_updates(&[], 3), "");
}

#[test]
fn update_counts_list_sources_with_updates() {
    let status = StatusSummary::from_updates(vec![
        update("a", SourceType::Apt, "1", "2"),
        update("b", SourceType::Dnf, "1", "2"),
        update("c", SourceType::Apt, "1", "2"),
    ]);
    assert_eq!(
        format_update_counts(&status).unwrap(),
        "1 dnf \u{b7} 2 apt"
    );
    assert_eq!(format_update_counts(&StatusSummary::from_updates(vec![])), None);
}

#[test]
fn waybar_output_with_and_without_updates() {
    let empty = StatusSummary::from_updates(vec![]);
    let out = waybar_output(&empty, IconStyle::Unicode, "Up to date", Some("Last: now"));
    assert_eq!(out.text, "\u{2713}");
    assert_eq!(out.tooltip, "Up to date\nLast: now");
    assert_eq!(out.class, "up-to-date");
    let status = StatusSummary::from_updates(vec![update("a", SourceType::Dnf, "1", "2")]);
    let out = waybar_output(&status, IconStyle::Nerd, "Up to date", None);
    assert_eq!(out.text, "\u{f03d7}  1");
    assert_eq!(out.tooltip, " dnf - 1 update\n  a 1 \u{2192} 2");
    assert_eq!(out.class, "has-updates");
    assert_eq!(waybar_icons(IconStyle::Unicode).2, "\u{26a0}");
}

#[test]
fn daemon_requests_and_responses() {
    assert_eq!(
        DaemonRequest::Check {
            notify: true,
            notify_always: false
        }
        .read_timeout_secs(),
        120
    );
    assert_eq!(DaemonRequest::Status.read_timeout_secs(), 5);
    let r = DaemonResponse::err("boom".into());
    assert!(!r.ok);
    assert_eq!(r.error.as_deref(), Some("boom"));
    assert!(DaemonResponse::ok().ok);
    let s = DaemonResponse::success(StatusSummary::from_updates(vec![]));
    assert!(s.ok && s.status.is_some() && s.error.is_none());
}

#[test]
fn daemon_notifies_on_changed_totals() {
    assert!(should_notify(None, 0, false, true));
    assert!(should_notify(None, 3, true, false));
    assert!(should_notify(Some(2), 3, true, false));
    assert!(!should_notify(Some(3), 3, true, false));
    assert!(!should_notify(None, 0, true, false));
    assert!(!should_notify(None, 3, false, false));
    assert_eq!(daemon_interval(5), 10);
    assert_eq!(daemon_interval(600), 600);
    assert_eq!(reload_daemon_settings(600, 5, false), (10, true, false));
    assert_eq!(reload_daemon_settings(600, 600, true), (600, false, true));
}

#[test]
fn status_count_reads_the_counts() {
    let status = StatusSummary::from_updates(vec![
        update("a", SourceType::Flatpak, "1", "2"),
        update("b", SourceType::Flatpak, "1", "2"),
    ]);
    assert_eq!(status.count(SourceType::Flatpak), 2);
    assert_eq!(status.count(SourceType::Dnf), 0);
    assert_eq!(status.total, 2);
}

#[test]
fn error_messages_follow_the_error_kind() {
    let e = PikeError::CommandFailed {
        cmd: "dnf5 install x".into(),
        exit_code: -1,
        stderr: "boom".into(),
    };
    assert_eq!(e.message(), "command `dnf5 install x` failed (exit -1): boom");
    assert_eq!(
        PikeError::Validation("bad".into()).message(),
        "invalid input: bad"
    );
    assert_eq!(
        PikeError::NotFound {
            name: "vim".into(),
            source_name: "apt".into()
        }
        .message(),
        "'vim' not found in apt"
    );
    assert_eq!(
        PikeError::Parse {
            source_name: "dnf".into(),
            detail: "x".into()
        }
        .message(),
        "failed to parse dnf output: x"
    );
    assert_eq!(PikeError::Config("c".into()).message(), "config error: c");
    let io = PikeError::Io(std::io::Error::other("disk"));
    assert_eq!(io.message(), "IO error: disk");
}
