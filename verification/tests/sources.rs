use pike::cleanup::{items_by_source, source_not_active};
use pike::config::{ArchConfig, SourcesConfig};
use pike::error::PikeError;
use pike::package::{CleanupItem, CleanupKind, Package, SourceType};
use pike::source::apt::{parse_installed_sizes, with_installed_sizes};
use pike::source::flatpak::{app_id_from_results, is_app_id};
use pike::source::{AptSource, DnfSource, FlatpakSource};

fn item(source: SourceType, kind: CleanupKind, name: &str) -> CleanupItem {
    CleanupItem {
        source,
        kind,
        name: name.into(),
        version: String::new(),
        size: None,
        arch: None,
    }
}

fn app(name: &str) -> Package {
    Package {
        name: name.into(),
        display_name: None,
        version: String::new(),
        source: SourceType::Flatpak,
        arch: None,
        description: None,
    }
}

#[test]
fn installed_sizes_fill_in_items() {
    let sizes = parse_installed_sizes("libfoo\t12\nlibbar:amd64\t3\n");
    let items = vec![
        item(SourceType::Apt, CleanupKind::Orphan, "libfoo"),
        item(SourceType::Apt, CleanupKind::Orphan, "libbaz"),
        item(SourceType::Apt, CleanupKind::Orphan, "libbar"),
    ];
    let sized = with_installed_sizes(items, &sizes);
    assert_eq!(sized[0].size, Some(12 * 1024));
    assert_eq!(sized[1].size, None);
    assert_eq!(sized[2].size, Some(3 * 1024));
    assert_eq!(sized[1].name, "libbaz");
}

#[test]
fn app_ids_are_taken_or_looked_up() {
    assert!(is_app_id("org.mozilla.firefox"));
    assert!(!is_app_id("firefox"));
    let results = [app("org.gnome.Calculator"), app("org.mozilla.Firefox")];
    assert_eq!(
        app_id_from_results("FireFox", &results).unwrap(),
        "org.mozilla.Firefox"
    );
    match app_id_from_results("gimp", &results) {
        Err(PikeError::NotFound { name, source_name }) => {
            assert_eq!(name, "gimp");
            assert_eq!(source_name, "flatpak");
        }
        _ => panic!("expected not found"),
    }
}

#[test]
fn cleanup_items_group_by_source_in_order() {
    let items = [
        item(SourceType::Apt, CleanupKind::Orphan, "a"),
        item(SourceType::Dnf, CleanupKind::Cache, "b"),
        item(SourceType::Apt, CleanupKind::OldKernel, "c"),
    ];
    let groups = items_by_source(&items);
    assert_eq!(groups.len(), 2);
    assert_eq!(groups[0].0, SourceType::Dnf);
    assert_eq!(groups[0].1[0].name, "b");
    assert_eq!(groups[1].0, SourceType::Apt);
    let names: Vec<&str> = groups[1].1.iter().map(|i| i.name.as_str()).collect();
    assert_eq!(names, ["a", "c"]);
    assert!(items_by_source(&[]).is_empty());
    assert_eq!(
        source_not_active(SourceType::Flatpak).message(),
        "flatpak source is not active"
    );
}

#[test]
fn config_file_values_fill_in_defaults() {
    let sources = SourcesConfig::from_flags(Some(false), None, Some(true));
    assert!(!sources.dnf && sources.flatpak && sources.apt);
    let arches = ArchConfig::from_lists("aarch64", Some(vec!["noarch".into()]), None, None);
    assert_eq!(arches.dnf, ["noarch"]);
    assert_eq!(arches.apt, ["arm64", "all"]);
    assert!(arches.flatpak.is_empty());
}

#[test]
fn sources_name_themselves() {
    assert_eq!(DnfSource.name(), "dnf");
    assert_eq!(FlatpakSource.source_type(), SourceType::Flatpak);
    assert_eq!(AptSource.name(), "apt");
}
