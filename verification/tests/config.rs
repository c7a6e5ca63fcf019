use pike::config::{ArchConfig, Config, PrivilegeEscalation, SourcesConfig};
use pike::db::row_to_update;
use pike::error::PikeError;
use pike::manager::{
    active_sources, choose_package_source, find_repo_source, group_by_source, search_hit,
    validate_repo_input,
};
use pike::package::{Package, RepoMethod, Repository, SourceType};
use pike::source::{format_cmd, privilege_command};

#[test]
fn test_default_config() {
    let config = Config::for_host("x86_64");
    assert!(config.sources.enabled(SourceType::Dnf));
    assert!(config.sources.enabled(SourceType::Flatpak));
    let dnf_arches = config.display.architectures.arches(SourceType::Dnf);
    assert!(dnf_arches.iter().any(|a| a == "x86_64"));
    assert!(dnf_arches.iter().any(|a| a == "noarch"));
    let flatpak_arches = config.display.architectures.arches(SourceType::Flatpak);
    assert!(flatpak_arches.is_empty());
    let apt_arches = config.display.architectures.arches(SourceType::Apt);
    assert_eq!(apt_arches, &vec!["amd64".to_string(), "all".to_string()]);
}

#[test]
fn test_arch_allowed_per_source() {
    let mut arch = ArchConfig::for_host("x86_64");
    arch.set_arches(SourceType::Dnf, vec!["x86_64".into(), "noarch".into()]);
    assert!(arch.arch_allowed("x86_64", SourceType::Dnf));
    assert!(arch.arch_allowed("noarch", SourceType::Dnf));
    assert!(!arch.arch_allowed("aarch64", SourceType::Dnf));
    assert!(!arch.arch_allowed("x86_64", SourceType::Flatpak));
}

#[test]
fn config_toml_text() {
    let mut config = Config::for_host("x86_64");
    config.sources.set_enabled(SourceType::Apt, false);
    let text = config.to_toml_commented();
    assert!(text.starts_with("[sources]\ndnf = true\nflatpak = true\napt = false\n"));
    assert!(text.contains("language = \"auto\"\n"));
    assert!(text.contains(
        "# Available: x86_64, aarch64, i686, noarch, armv7hl, ppc64le, s390x\ndnf = [\"x86_64\", \"noarch\"]\n"
    ));
    assert!(text.contains("apt = [\"amd64\", \"all\"]\n"));
    assert!(!text.contains("flatpak = ["));
    assert!(text.contains("[logging]\nfile = true\n"));
    assert!(text.ends_with("interval = 600\n# Show desktop notifications when updates are found\nnotify = true\n"));
}

#[test]
fn sources_iter_in_source_order() {
    let s = SourcesConfig::detect(true, false, true);
    assert_eq!(
        s.iter(),
        vec![
            (SourceType::Dnf, true),
            (SourceType::Flatpak, false),
            (SourceType::Apt, true)
        ]
    );
}

#[test]
fn test_validate_repo_copr_empty_url_rejected() {
    let result = validate_repo_input(RepoMethod::Copr, "", "", "");
    assert!(result.is_err());
}

#[test]
fn test_validate_repo_rpm_empty_url_rejected() {
    let result = validate_repo_input(RepoMethod::RpmPackage, "", "", "");
    assert!(result.is_err());
}

#[test]
fn test_validate_repo_copr_valid() {
    let result = validate_repo_input(RepoMethod::Copr, "", "", "owner/project");
    assert!(result.is_ok());
}

#[test]
fn test_validate_repo_ppa_empty_url_rejected() {
    let result = validate_repo_input(RepoMethod::Ppa, "", "", "");
    assert!(result.is_err());
}

#[test]
fn test_validate_repo_ppa_valid() {
    let result = validate_repo_input(RepoMethod::Ppa, "", "", "user/ppa-name");
    assert!(result.is_ok());
}

#[test]
fn test_validate_repo_ppa_no_slash_rejected() {
    let result = validate_repo_input(RepoMethod::Ppa, "", "", "noslash");
    assert!(result.is_err());
}

#[test]
fn test_validate_repo_ppa_empty_owner_rejected() {
    let result = validate_repo_input(RepoMethod::Ppa, "", "", "/ppa-name");
    assert!(result.is_err());
}

#[test]
fn test_validate_repo_ppa_empty_name_rejected() {
    let result = validate_repo_input(RepoMethod::Ppa, "", "", "user/");
    assert!(result.is_err());
}

#[test]
fn validate_repo_messages() {
    match validate_repo_input(RepoMethod::BaseUrl, "bad id", "", "https://x") {
        Err(PikeError::Validation(m)) => {
            assert_eq!(m, "repo ID may only contain letters, digits, '.', '_', '-'")
        }
        other => panic!("unexpected {other:?}"),
    }
    match validate_repo_input(RepoMethod::BaseUrl, "", "a\u{7}b", "https://x") {
        Err(PikeError::Validation(m)) => {
            assert_eq!(m, "repo name must not contain control characters")
        }
        other => panic!("unexpected {other:?}"),
    }
    match validate_repo_input(RepoMethod::RpmPackage, "", "", "ftp://x/p.rpm") {
        Err(PikeError::Validation(m)) => {
            assert_eq!(m, "RPM URL must start with http://, https://, or file://")
        }
        other => panic!("unexpected {other:?}"),
    }
    assert!(validate_repo_input(RepoMethod::RepoFile, "my.repo_1-x", "Name", "file:///r.repo").is_ok());
}

#[test]
fn row_to_update_reads_source() {
    let u = row_to_update("flatpak".into(), "org.a.B".into(), "1".into(), "2".into());
    assert_eq!(u.source, SourceType::Flatpak);
    assert_eq!(u.name, "org.a.B");
    assert!(u.arch.is_none());
    assert_eq!(u.installed_version, "1");
    assert_eq!(u.available_version, "2");
    let unknown = row_to_update("pacman".into(), "x".into(), "".into(), "".into());
    assert_eq!(unknown.source, SourceType::Dnf);
}

#[test]
fn active_sources_need_enabled_and_installed() {
    let enabled = SourcesConfig::detect(true, true, false);
    assert_eq!(
        active_sources(&enabled, true, false, true).unwrap(),
        vec![SourceType::Dnf]
    );
    match active_sources(&enabled, false, false, true) {
        Err(PikeError::Other(m)) => {
            assert_eq!(m, "no package managers found (need dnf5, apt-get, or flatpak)")
        }
        other => panic!("unexpected {other:?}"),
    }
}

#[test]
fn package_source_choice() {
    assert!(matches!(
        choose_package_source("vim", &[]),
        Err(PikeError::NotFound { .. })
    ));
    assert_eq!(
        choose_package_source("vim", &[SourceType::Apt]).unwrap(),
        SourceType::Apt
    );
    match choose_package_source("vim", &[SourceType::Dnf, SourceType::Flatpak]) {
        Err(PikeError::Other(m)) => assert_eq!(
            m,
            "'vim' found in multiple sources. Use --source to specify: dnf, flatpak"
        ),
        other => panic!("unexpected {other:?}"),
    }
    let found = vec![Package {
        name: "Vim-Enhanced".into(),
        display_name: None,
        version: String::new(),
        source: SourceType::Dnf,
        arch: None,
        description: None,
    }];
    assert!(search_hit("VIM", &found));
    assert!(!search_hit("emacs", &found));
}

fn repo(id: &str, source: SourceType) -> Repository {
    Repository {
        id: id.into(),
        name: id.into(),
        source,
        enabled: true,
        url: None,
    }
}

#[test]
fn repo_source_is_first_listing_it() {
    let listed = vec![
        (SourceType::Dnf, vec![repo("fedora", SourceType::Dnf)]),
        (SourceType::Flatpak, vec![repo("flathub", SourceType::Flatpak)]),
    ];
    assert_eq!(find_repo_source("flathub", &listed).unwrap(), SourceType::Flatpak);
    assert!(matches!(
        find_repo_source("none", &listed),
        Err(PikeError::NotFound { .. })
    ));
}

#[test]
fn packages_grouped_in_source_order() {
    let pairs = vec![
        (SourceType::Apt, "a".to_string()),
        (SourceType::Dnf, "b".to_string()),
        (SourceType::Apt, "c".to_string()),
    ];
    assert_eq!(
        group_by_source(&pairs),
        vec![
            (SourceType::Dnf, vec!["b".to_string()]),
            (SourceType::Apt, vec!["a".to_string(), "c".to_string()]),
        ]
    );
}

#[test]
fn privilege_commands() {
    assert_eq!(privilege_command(PrivilegeEscalation::Auto, true, false).unwrap(), "sudo");
    assert_eq!(privilege_command(PrivilegeEscalation::Auto, false, true).unwrap(), "pkexec");
    assert!(matches!(
        privilege_command(PrivilegeEscalation::Auto, false, false),
        Err(PikeError::Other(_))
    ));
    assert!(privilege_command(PrivilegeEscalation::Sudo, false, true).is_err());
    assert_eq!(privilege_command(PrivilegeEscalation::Pkexec, false, false).unwrap(), "pkexec");
    assert_eq!(privilege_command(PrivilegeEscalation::Doas, true, false).unwrap(), "doas");
}

#[test]
fn command_lines() {
    assert_eq!(format_cmd("dnf5", &["search", "vim"]), "dnf5 search vim");
    assert_eq!(format_cmd("flatpak", &[]), "flatpak ");
}
