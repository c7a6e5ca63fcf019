use pike::config::{Config, SourcesConfig};
use pike::dialog::{capped, line_budget, wrap_chars, Budget};
use pike::forms::{
    submit_add_repo, FormField, FormKey, FormKeyOutcome, ReposAddForm, SubmitOutcome,
};
use pike::lists::{missing_backends, picker_entries, ListTabState};
use pike::package::{Package, RepoMethod, Repository, SourceType};
use pike::settings::{
    apply_setting, build_settings_layout, is_non_activatable, settings_skip_groups,
    SettingOutcome, SettingsRow,
};

#[test]
fn test_line_budget_shows_all_deps_of_one_item() {
    let budget = line_budget(18, 1, 13);
    assert_eq!(
        budget,
        Budget {
            items: 4,
            preview: 13,
            spaced: true
        }
    );
}

#[test]
fn test_line_budget_splits_long_lists() {
    let budget = line_budget(18, 40, 40);
    assert_eq!((budget.items, budget.preview), (8, 9));
    assert_eq!(line_budget(18, 40, 0).items, 18);
    assert_eq!(line_budget(18, 40, 1).items, 16);
}

#[test]
fn test_line_budget_tight_keeps_header_with_an_entry() {
    let budget = line_budget(4, 5, 13);
    assert_eq!(
        budget,
        Budget {
            items: 1,
            preview: 2,
            spaced: true
        }
    );
    for body in 1..=6 {
        let budget = line_budget(body, 5, 13);
        assert!(budget.preview >= 2, "body {body}: {budget:?}");
        if body >= 3 {
            let used = budget.items + budget.preview + usize::from(budget.spaced);
            assert!(used <= body, "body {body}: {budget:?}");
        }
    }
}

#[test]
fn line_budget_uses_the_whole_body() {
    for body in 3..40 {
        for items in 0..12 {
            for preview in 0..12 {
                let b = line_budget(body, items, preview);
                assert!(b.items >= 1);
                assert!(b.preview <= preview);
                assert_eq!(b.items + b.preview + usize::from(b.spaced), body);
            }
        }
    }
}

#[test]
fn wrap_chars_cuts_at_the_width() {
    assert_eq!(wrap_chars("abcdef", 4), ["abcd", "ef"]);
    assert_eq!(wrap_chars("", 4), [""]);
    assert_eq!(wrap_chars("ab", 0), ["a", "b"]);
    assert_eq!(wrap_chars("\u{65e5}\u{672c}\u{8a9e}", 4), ["\u{65e5}\u{672c}", "\u{8a9e}"]);
    let text = "https://download.docker.com/linux/fedora/docker-ce.repo";
    assert_eq!(wrap_chars(text, 20).concat(), text);
}

#[test]
fn capped_keeps_room_for_the_more_line() {
    let lines: Vec<u32> = (1..=5).collect();
    assert_eq!(capped(lines.clone(), 3), (vec![1, 2], Some(3)));
    assert_eq!(capped(lines.clone(), 5), (lines.clone(), None));
    assert_eq!(capped(lines.clone(), 0), (vec![], None));
}

fn remote_form() -> ReposAddForm {
    let mut form = ReposAddForm::default();
    form.active = true;
    form.step = 2;
    form.source = Some(SourceType::Flatpak);
    form.method = Some(RepoMethod::RemoteAdd);
    form.gpgcheck = true;
    form
}

fn type_text(form: &mut ReposAddForm, text: &str) {
    for c in text.chars() {
        assert!(matches!(form.handle_key(FormKey::Char(c), &[]), FormKeyOutcome::Stay));
    }
}

#[test]
fn form_fields_follow_the_method() {
    let mut form = remote_form();
    assert_eq!(form.fields(), [FormField::Name, FormField::Url]);
    form.method = Some(RepoMethod::RepoFile);
    assert_eq!(
        form.fields(),
        [
            FormField::RepoId,
            FormField::Name,
            FormField::Url,
            FormField::GpgCheck
        ]
    );
    form.method = Some(RepoMethod::Copr);
    assert_eq!(form.fields(), [FormField::Url]);
    form.field = 1;
    assert_eq!(form.active_field(), None);
    form.field = 0;
    assert_eq!(form.active_field(), Some(FormField::Url));
    assert_eq!(form.field_text(FormField::GpgCheck), None);
}

#[test]
fn form_submit_derives_the_name_and_cancel_restores_it() {
    let mut form = remote_form();
    form.field = 1;
    type_text(&mut form, "https://dl.flathub.org/repo/flathub.flatpakrepo");
    assert_eq!(form.validation_error, "");
    match form.handle_key(FormKey::Enter, &[]) {
        FormKeyOutcome::Add(p) => {
            assert!(!form.active);
            assert_eq!(p.name, "flathub");
            assert_eq!(p.source, SourceType::Flatpak);
            assert_eq!(p.method, RepoMethod::RemoteAdd);
            let entries = [
                (SourceType::Dnf, RepoMethod::RepoFile),
                (SourceType::Flatpak, RepoMethod::RemoteAdd),
            ];
            let back = ReposAddForm::reopened(p, &entries);
            assert!(back.active);
            assert_eq!(back.step, 2);
            assert_eq!(back.method_index, 1);
            assert_eq!(back.name, "");
            assert_eq!(back.url, "https://dl.flathub.org/repo/flathub.flatpakrepo");
            assert_eq!(back.validation_error, "");
        }
        _ => panic!("expected an add"),
    }
}

#[test]
fn form_keys_move_edit_and_leave() {
    let mut form = remote_form();
    form.field = 1;
    form.handle_key(FormKey::Tab, &[]);
    assert_eq!(form.field, 0);
    form.handle_key(FormKey::BackTab, &[]);
    assert_eq!(form.field, 1);
    type_text(&mut form, "ftp://x");
    assert_eq!(
        form.validation_error,
        "invalid input: URL must start with http://, https://, or file://"
    );
    assert!(matches!(form.handle_key(FormKey::Enter, &[]), FormKeyOutcome::Stay));
    assert!(form.active);
    form.handle_key(FormKey::Backspace, &[]);
    assert_eq!(form.url, "ftp://");
    assert!(matches!(
        form.handle_key(FormKey::Esc, &[]),
        FormKeyOutcome::LeaveEditing
    ));
    assert_eq!(form.url, "");
    assert_eq!(form.step, 0);
    assert!(form.gpgcheck);
}

#[test]
fn form_check_box_takes_e() {
    let mut form = remote_form();
    form.method = Some(RepoMethod::RepoFile);
    form.source = Some(SourceType::Dnf);
    form.field = 3;
    form.handle_key(FormKey::Char('e'), &[]);
    assert!(!form.gpgcheck);
    form.handle_key(FormKey::Char('x'), &[]);
    assert!(!form.gpgcheck);
    assert_eq!(form.url, "");
    form.field = 2;
    type_text(&mut form, "e");
    assert_eq!(form.url, "e");
}

#[test]
fn form_submit_asks_for_a_url_then_refuses_duplicates() {
    let mut form = remote_form();
    form.method = Some(RepoMethod::RepoFile);
    form.source = Some(SourceType::Dnf);
    form.field = 0;
    form.handle_key(FormKey::Enter, &[]);
    assert_eq!(form.field, 2);
    form.repo_id = "docker-ce".into();
    form.url = "https://download.docker.com/linux/fedora/docker-ce.repo".into();
    let repos = [Repository {
        id: "Docker-CE".into(),
        name: "Docker".into(),
        source: SourceType::Dnf,
        enabled: true,
        url: None,
    }];
    assert!(matches!(
        submit_add_repo(&form, &repos),
        SubmitOutcome::AlreadyExists
    ));
    assert!(matches!(
        form.handle_key(FormKey::Enter, &repos),
        FormKeyOutcome::AlreadyExists
    ));
    assert!(!form.active);
    let other_source = [Repository {
        id: "docker-ce".into(),
        name: "Docker".into(),
        source: SourceType::Apt,
        enabled: true,
        url: None,
    }];
    assert!(matches!(
        submit_add_repo(&form, &other_source),
        SubmitOutcome::Add(_)
    ));
}

fn package(name: &str, source: SourceType, description: Option<&str>) -> Package {
    Package {
        name: name.into(),
        display_name: None,
        version: "1".into(),
        source,
        arch: None,
        description: description.map(|d| d.into()),
    }
}

#[test]
fn list_filters_by_source_and_query() {
    let mut list: ListTabState<Package> = ListTabState::new();
    list.items = vec![
        package("firefox", SourceType::Dnf, None),
        package("org.mozilla.firefox", SourceType::Flatpak, Some("Web browser")),
        package("vim", SourceType::Dnf, Some("Editor like FIREWORKS")),
        package("gimp", SourceType::Apt, None),
    ];
    assert_eq!(list.filtered_indices(true), [0, 1, 2, 3]);
    list.filter = "FIRE".into();
    assert_eq!(list.filtered_indices(true), [0, 1, 2]);
    assert_eq!(list.filtered_indices(false), [0, 1, 2, 3]);
    assert_eq!(list.cycle_source_filter(true), Some(0));
    assert_eq!(list.source_filter, Some(SourceType::Dnf));
    assert_eq!(list.filtered_indices(true), [0, 2]);
    assert_eq!(list.cycle_source_filter(true), Some(0));
    assert_eq!(list.source_filter, Some(SourceType::Flatpak));
    assert_eq!(list.cycle_source_filter(true), None);
    assert_eq!(list.source_filter, Some(SourceType::Apt));
    assert_eq!(list.cycle_source_filter(true), Some(0));
    assert_eq!(list.source_filter, None);
}

#[test]
fn backends_and_picker_entries() {
    let config = SourcesConfig {
        dnf: true,
        flatpak: true,
        apt: false,
    };
    assert_eq!(missing_backends(&config, &[SourceType::Flatpak]), ["dnf5"]);
    assert_eq!(
        picker_entries(&[SourceType::Dnf, SourceType::Flatpak]),
        [
            (SourceType::Dnf, RepoMethod::RepoFile),
            (SourceType::Dnf, RepoMethod::Copr),
            (SourceType::Dnf, RepoMethod::BaseUrl),
            (SourceType::Dnf, RepoMethod::RpmPackage),
            (SourceType::Flatpak, RepoMethod::RemoteAdd),
        ]
    );
}

#[test]
fn settings_layout_lists_arch_rows_of_enabled_sources() {
    let mut config = Config::for_host("x86_64");
    let layout = build_settings_layout(&config);
    assert_eq!(layout.len(), 34);
    assert!(matches!(layout[1], SettingsRow::LanguageCycle));
    assert!(matches!(layout[9], SettingsRow::GroupHeader(_)));
    assert!(matches!(
        layout[10],
        SettingsRow::ArchToggle(SourceType::Dnf, "x86_64")
    ));
    config.sources.apt = false;
    assert_eq!(build_settings_layout(&config).len(), 26);
    assert!(is_non_activatable(&layout, 0));
    assert!(!is_non_activatable(&layout, 1));
    assert!(!is_non_activatable(&layout, 99));
    assert_eq!(settings_skip_groups(&layout, 1, Some(0)), Some(1));
    assert_eq!(settings_skip_groups(&layout, -1, Some(2)), Some(1));
    assert_eq!(settings_skip_groups(&layout, 1, Some(2)), Some(4));
    assert_eq!(settings_skip_groups(&layout, 1, Some(1)), None);
    assert_eq!(settings_skip_groups(&layout, -1, Some(0)), Some(0));
    assert_eq!(settings_skip_groups(&layout, 1, Some(31)), Some(32));
}

#[test]
fn settings_rows_change_the_configuration() {
    let mut config = Config::for_host("x86_64");
    let installed = SourcesConfig {
        dnf: true,
        flatpak: false,
        apt: true,
    };
    assert_eq!(
        apply_setting(&mut config, SettingsRow::LanguageCycle, &installed, "x86_64"),
        SettingOutcome::Changed
    );
    assert_eq!(config.display.language, "en");
    config.daemon.interval = 600;
    apply_setting(&mut config, SettingsRow::DaemonInterval, &installed, "x86_64");
    assert_eq!(config.daemon.interval, 900);
    config.daemon.interval = 86400;
    apply_setting(&mut config, SettingsRow::DaemonInterval, &installed, "x86_64");
    assert_eq!(config.daemon.interval, 300);
    let toggle = SettingsRow::ArchToggle(SourceType::Dnf, "x86_64");
    apply_setting(&mut config, toggle, &installed, "x86_64");
    assert_eq!(config.display.architectures.dnf, ["noarch"]);
    apply_setting(&mut config, toggle, &installed, "x86_64");
    assert_eq!(config.display.architectures.dnf, ["noarch", "x86_64"]);
    let flatpak = SettingsRow::SourceToggle(SourceType::Flatpak);
    assert_eq!(
        apply_setting(&mut config, flatpak, &installed, "x86_64"),
        SettingOutcome::Changed
    );
    assert!(!config.sources.flatpak);
    assert_eq!(
        apply_setting(&mut config, flatpak, &installed, "x86_64"),
        SettingOutcome::NotInstalled(SourceType::Flatpak)
    );
    assert!(!config.sources.flatpak);
    apply_setting(&mut config, SettingsRow::SourcesReset, &installed, "x86_64");
    assert!(config.sources.dnf && !config.sources.flatpak && config.sources.apt);
    assert_eq!(config.display.architectures.dnf, ["x86_64", "noarch"]);
    assert_eq!(
        apply_setting(&mut config, SettingsRow::Separator, &installed, "x86_64"),
        SettingOutcome::Ignored
    );
    let file = config.logging.file;
    apply_setting(&mut config, SettingsRow::LogToggle, &installed, "x86_64");
    assert_eq!(config.logging.file, !file);
}

#[test]
fn count_line_lists_sources_unless_filtered() {
    let items = vec![
        package("a", SourceType::Apt, None),
        package("b", SourceType::Dnf, None),
        package("c", SourceType::Apt, None),
    ];
    assert_eq!(
        pike::lists::format_count_line(&items, 3, "packages").unwrap(),
        "3 packages (1 dnf \u{b7} 2 apt)"
    );
    assert_eq!(pike::lists::format_count_line(&items, 2, "packages"), None);
    let none: Vec<Package> = Vec::new();
    assert_eq!(
        pike::lists::format_count_line(&none, 0, "packages").unwrap(),
        "0 packages"
    );
}

#[test]
fn installed_set_follows_marks() {
    let packages = vec![
        package("vim", SourceType::Dnf, None),
        package("org.gimp.GIMP", SourceType::Flatpak, None),
    ];
    let mut set = pike::lists::InstalledSet::rebuild(&packages);
    assert!(set.is_installed("vim", SourceType::Dnf));
    assert!(!set.is_installed("vim", SourceType::Apt));
    set.mark_installed("vim", SourceType::Apt);
    assert!(set.is_installed("vim", SourceType::Apt));
    set.mark_removed("vim", SourceType::Dnf);
    assert!(!set.is_installed("vim", SourceType::Dnf));
    assert!(set.is_installed("org.gimp.GIMP", SourceType::Flatpak));
    assert!(!pike::lists::InstalledSet::new().is_installed("vim", SourceType::Dnf));
}

#[test]
fn picker_opens_and_moves_round() {
    let entries = [
        (SourceType::Dnf, RepoMethod::RepoFile),
        (SourceType::Dnf, RepoMethod::Copr),
        (SourceType::Flatpak, RepoMethod::RemoteAdd),
    ];
    let (mut form, editing) = ReposAddForm::open(&entries);
    assert!(!editing);
    assert!(form.active && form.gpgcheck);
    assert_eq!(form.step, 0);
    assert_eq!(form.handle_picker_key(FormKey::Up, &entries), pike::forms::PickerOutcome::Stay);
    assert_eq!(form.method_index, 2);
    assert_eq!(form.method, Some(RepoMethod::RemoteAdd));
    assert_eq!(form.handle_picker_key(FormKey::Char('j'), &entries), pike::forms::PickerOutcome::Stay);
    assert_eq!(form.method_index, 0);
    assert_eq!(form.source, Some(SourceType::Dnf));
    assert_eq!(
        form.handle_picker_key(FormKey::Char('e'), &entries),
        pike::forms::PickerOutcome::StartEditing
    );
    assert_eq!(form.step, 2);
    assert_eq!(form.method, Some(RepoMethod::RepoFile));
    assert_eq!(form.handle_picker_key(FormKey::Esc, &entries), pike::forms::PickerOutcome::Closed);
    assert!(!form.active);
    let single = [(SourceType::Flatpak, RepoMethod::RemoteAdd)];
    let (form, editing) = ReposAddForm::open(&single);
    assert!(editing);
    assert_eq!(form.step, 2);
}

#[test]
fn test_cancel_add_repo_restores_form() {
    let entries = picker_entries(&[SourceType::Dnf]);
    let (mut form, _) = ReposAddForm::open(&entries);
    form.url = "https://example.com/my.repo".into();
    form.gpgcheck = false;
    let params = match form.handle_key(FormKey::Enter, &[]) {
        FormKeyOutcome::Add(p) => p,
        _ => panic!("expected an add"),
    };
    assert!(!form.active);

    // Cancelling the confirmation opens the form again with what was entered.
    let mut form = ReposAddForm::reopened(params, &entries);
    assert!(form.active);
    assert_eq!(form.step, 2);
    assert_eq!(form.url, "https://example.com/my.repo");
    assert!(!form.gpgcheck);

    match form.handle_key(FormKey::Enter, &[]) {
        FormKeyOutcome::Add(p) => {
            assert_eq!(p.url, "https://example.com/my.repo");
            assert!(!p.gpgcheck);
        }
        _ => panic!("expected an add"),
    }
}

#[test]
fn test_cancel_add_repo_drops_derived_name() {
    let url = "https://dl.flathub.org/repo/flathub.flatpakrepo";
    for (typed, restored) in [("", ""), ("custom", "custom")] {
        let entries = picker_entries(&[SourceType::Flatpak]);
        let (mut form, editing) = ReposAddForm::open(&entries);
        assert!(editing);
        form.url = url.into();
        form.name = typed.into();
        let params = match form.handle_key(FormKey::Enter, &[]) {
            FormKeyOutcome::Add(p) => p,
            _ => panic!("expected an add"),
        };
        assert!(!params.name.is_empty());

        let form = ReposAddForm::reopened(params, &entries);
        assert_eq!(form.name, restored);
    }
}
