use pike::cleanup::{
    extra_removals, kernel_release, of_kind, old_kernel_items, order_scan_items, removal_list,
    total_size, with_stderr, KernelNaming,
};
use pike::error::PikeError;
use pike::package::{CleanupItem, CleanupKind, SourceType};

fn v(list: &[&str]) -> Vec<String> {
    list.iter().map(|s| s.to_string()).collect()
}

type KernelCase<'a> = (&'a [&'a str], Option<&'a str>, usize, &'a [&'a str]);

#[test]
fn test_old_kernel_items() {
    let fedora = [
        "7.2.5-200.fc44.x86_64",
        "7.2.6-200.fc44.x86_64",
        "7.2.7-200.fc44.x86_64",
    ];
    let ubuntu = [
        "6.8.0-90-generic",
        "6.8.0-100-generic",
        "6.8.0-45-generic",
        "6.8.0-110-generic",
        "6.8.0-60-generic",
    ];
    let cases: [KernelCase; 7] = [
        (
            &fedora,
            Some("7.2.7-200.fc44.x86_64"),
            2,
            &["7.2.5-200.fc44.x86_64"],
        ),
        (
            &fedora,
            Some("7.2.5-200.fc44.x86_64"),
            1,
            &["7.2.6-200.fc44.x86_64"],
        ),
        (&ubuntu[..2], Some("6.8.0-100-generic"), 5, &[]),
        (
            &ubuntu[..3],
            Some("6.8.0-100-generic"),
            0,
            &["6.8.0-90-generic", "6.8.0-45-generic"],
        ),
        (
            &ubuntu,
            Some("6.8.0-110-generic"),
            2,
            &["6.8.0-90-generic", "6.8.0-60-generic", "6.8.0-45-generic"],
        ),
        (&ubuntu, None, 1, &[]),
        (&[], Some("6.8.0-110-generic"), 1, &[]),
    ];
    for (installed, running, keep, expected) in cases {
        let versions = installed.iter().map(|s| (s.to_string(), None)).collect();
        let items = old_kernel_items(
            versions,
            running,
            keep,
            SourceType::Apt,
            KernelNaming::VersionAfter("linux-image-"),
        );
        let got: Vec<&str> = items.iter().map(|i| i.version.as_str()).collect();
        assert_eq!(
            got, expected,
            "{installed:?} running {running:?} keep {keep}"
        );
        assert!(items.iter().all(|i| i.kind == CleanupKind::OldKernel
            && i.name == format!("linux-image-{}", i.version)));
    }
}

#[test]
fn test_old_kernel_items_sizes() {
    let versions = vec![
        ("7.2.5-200.fc44.x86_64".to_string(), Some(10)),
        ("7.2.7-200.fc44.x86_64".to_string(), Some(30)),
        ("7.2.6-200.fc44.x86_64".to_string(), None),
    ];
    let items = old_kernel_items(
        versions,
        Some("7.2.7-200.fc44.x86_64"),
        1,
        SourceType::Dnf,
        KernelNaming::Fixed("kernel"),
    );
    let sizes: Vec<Option<u64>> = items.iter().map(|i| i.size).collect();
    assert_eq!(sizes, vec![None, Some(10)]);
    assert!(items.iter().all(|i| i.name == "kernel"));
}

#[test]
fn old_kernels_of_equal_version_keep_their_order() {
    let versions = vec![
        ("1.0".to_string(), Some(1)),
        ("2.0".to_string(), None),
        ("1_0".to_string(), Some(2)),
    ];
    let items = old_kernel_items(
        versions,
        Some("9"),
        1,
        SourceType::Dnf,
        KernelNaming::Fixed("kernel"),
    );
    let got: Vec<(&str, Option<u64>)> =
        items.iter().map(|i| (i.version.as_str(), i.size)).collect();
    assert_eq!(got, vec![("1.0", Some(1)), ("1_0", Some(2))]);
}

#[test]
fn test_kernel_release() {
    let cases = [
        ("7.2.5-200.fc44.x86_64+debug", "7.2.5-200.fc44.x86_64"),
        ("7.2.5-200.fc44.aarch64+16k", "7.2.5-200.fc44.aarch64"),
        ("7.2.5-200.fc44.x86_64", "7.2.5-200.fc44.x86_64"),
        ("6.12.38+deb13-amd64", "6.12.38+deb13-amd64"),
        ("6.12.9+bpo-amd64", "6.12.9+bpo-amd64"),
        ("6.6.51+rpt-rpi-v8", "6.6.51+rpt-rpi-v8"),
        ("6.8.0-45-generic", "6.8.0-45-generic"),
    ];
    for (input, expected) in cases {
        assert_eq!(kernel_release(input), expected, "{input}");
    }
    assert_eq!(kernel_release("6.1+"), "6.1+");
}

#[test]
fn test_removal_list() {
    let orphans = v(&["libfoo", "libbar", "libfoo"]);
    let kernels = v(&[
        "kernel-core-7.2.6-200.fc44.x86_64",
        "kernel-core-7.2.5-200.fc44.x86_64",
        "kernel-core-17.2.5-200.fc44.x86_64",
        "libbar",
    ]);
    assert_eq!(
        removal_list(
            orphans.clone(),
            kernels.clone(),
            Some("7.2.6-200.fc44.x86_64")
        ),
        v(&[
            "kernel-core-17.2.5-200.fc44.x86_64",
            "kernel-core-7.2.5-200.fc44.x86_64",
            "libbar",
            "libfoo"
        ])
    );
    assert_eq!(
        removal_list(
            orphans.clone(),
            kernels.clone(),
            Some("7.2.5-200.fc44.x86_64")
        ),
        v(&[
            "kernel-core-17.2.5-200.fc44.x86_64",
            "kernel-core-7.2.6-200.fc44.x86_64",
            "libbar",
            "libfoo"
        ])
    );
    assert_eq!(
        removal_list(orphans, kernels, None),
        v(&["libbar", "libfoo"])
    );
}

#[test]
fn test_extra_removals() {
    let requested = v(&["a"]);
    assert_eq!(
        extra_removals(v(&["b", "a", "c"]), &requested, SourceType::Apt).unwrap(),
        v(&["b", "c"])
    );
    assert!(matches!(
        extra_removals(Vec::new(), &requested, SourceType::Apt),
        Err(PikeError::Parse { .. })
    ));
    assert!(
        extra_removals(Vec::new(), &[], SourceType::Apt)
            .unwrap()
            .is_empty()
    );
}

#[test]
fn extra_removals_names_first_missing_package() {
    match extra_removals(v(&["x"]), &v(&["x", "y", "z"]), SourceType::Dnf) {
        Err(PikeError::Parse {
            source_name,
            detail,
        }) => {
            assert_eq!(source_name, "dnf");
            assert_eq!(detail, "removal preview does not list requested package y");
        }
        other => panic!("unexpected {other:?}"),
    }
}

#[test]
fn test_with_stderr() {
    let parse = || PikeError::Parse {
        source_name: "dnf".into(),
        detail: "missing libfoo".into(),
    };
    match with_stderr(parse(), "No match for argument: libfoo\n") {
        PikeError::Parse { detail, .. } => {
            assert_eq!(detail, "missing libfoo: No match for argument: libfoo")
        }
        e => panic!("unexpected {e:?}"),
    }
    match with_stderr(parse(), " \n") {
        PikeError::Parse { detail, .. } => assert_eq!(detail, "missing libfoo"),
        e => panic!("unexpected {e:?}"),
    }
    assert!(matches!(
        with_stderr(PikeError::Other("x".into()), "err"),
        PikeError::Other(_)
    ));
}

#[test]
fn with_stderr_joins_lines() {
    let e = PikeError::Parse {
        source_name: "apt".into(),
        detail: "d".into(),
    };
    match with_stderr(e, "  first \n\n second\n") {
        PikeError::Parse {
            source_name,
            detail,
        } => {
            assert_eq!(source_name, "apt");
            assert_eq!(detail, "d: first; second");
        }
        e => panic!("unexpected {e:?}"),
    }
}

fn item(kind: CleanupKind, source: SourceType, name: &str, version: &str, size: Option<u64>) -> CleanupItem {
    CleanupItem {
        source,
        kind,
        name: name.to_string(),
        version: version.to_string(),
        size,
        arch: None,
    }
}

#[test]
fn of_kind_and_total_size() {
    let items = vec![
        item(CleanupKind::Orphan, SourceType::Dnf, "a", "", Some(5)),
        item(CleanupKind::Cache, SourceType::Dnf, "c", "", None),
        item(CleanupKind::Orphan, SourceType::Apt, "b", "", Some(7)),
    ];
    let orphans = of_kind(&items, CleanupKind::Orphan);
    let names: Vec<&str> = orphans.iter().map(|i| i.name.as_str()).collect();
    assert_eq!(names, vec!["a", "b"]);
    assert_eq!(total_size(&items), 12);
    assert_eq!(total_size(&[]), 0);
    let huge = vec![
        item(CleanupKind::Orphan, SourceType::Dnf, "a", "", Some(u64::MAX)),
        item(CleanupKind::Orphan, SourceType::Dnf, "b", "", Some(2)),
    ];
    assert_eq!(total_size(&huge), 1);
}

#[test]
fn scan_order_kind_source_newest_kernel_then_name() {
    let items = vec![
        item(CleanupKind::Cache, SourceType::Dnf, "/var/cache", "", None),
        item(CleanupKind::OldKernel, SourceType::Apt, "linux-image-6.8.0-45-generic", "6.8.0-45-generic", None),
        item(CleanupKind::OldKernel, SourceType::Apt, "linux-image-6.8.0-100-generic", "6.8.0-100-generic", None),
        item(CleanupKind::Orphan, SourceType::Apt, "zlib", "", None),
        item(CleanupKind::Orphan, SourceType::Dnf, "libz", "", None),
        item(CleanupKind::Orphan, SourceType::Dnf, "liba", "", None),
    ];
    let ordered = order_scan_items(items);
    let names: Vec<&str> = ordered.iter().map(|i| i.name.as_str()).collect();
    assert_eq!(
        names,
        vec![
            "liba",
            "libz",
            "zlib",
            "linux-image-6.8.0-100-generic",
            "linux-image-6.8.0-45-generic",
            "/var/cache",
        ]
    );
}
