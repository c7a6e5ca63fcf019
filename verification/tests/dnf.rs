use pike::cleanup::extra_removals;
use pike::error::PikeError;
use pike::package::{CleanupKind, SourceType};
use pike::source::dnf::{
    installonly_names, kernel_packages_for, kernel_versions, orphan_nevra,
    parse_check_upgrade_output, parse_kernel_packages, parse_list_installed_output,
    parse_pending_gpg_keys, parse_remove_preview, parse_repo_list_json, parse_search_output,
    parse_unneeded_output,
};

type Result<T> = std::result::Result<T, PikeError>;

const DNF_SEARCH_OUTPUT: &str = "Updating and loading repositories:\nRepositories loaded.\nMatched fields: name (exact)\n lan-mouse.aarch64\tSoftware KVM Switch / mouse & keyboard sharing software\n lan-mouse.x86_64\tSoftware KVM Switch / mouse & keyboard sharing software\nMatched fields: name, summary\n lan-mouse-debuginfo.x86_64\tDebug information for package lan-mouse\n";

const DNF_CHECK_UPGRADE_OUTPUT: &str = " bash.x86_64                  5.2.38-1.fc43                    updates\n vim-enhanced.x86_64          9.1.900-1.fc43                   updates\n";

#[test]
fn dnf_test_parse_search() {
    let packages = parse_search_output(DNF_SEARCH_OUTPUT);
    assert_eq!(packages.len(), 3);

    assert_eq!(packages[0].name, "lan-mouse");
    assert_eq!(packages[0].arch.as_deref(), Some("aarch64"));

    assert_eq!(packages[1].name, "lan-mouse");
    assert_eq!(packages[1].arch.as_deref(), Some("x86_64"));

    assert_eq!(packages[2].name, "lan-mouse-debuginfo");
    assert_eq!(packages[2].arch.as_deref(), Some("x86_64"));
}

#[test]
fn test_parse_search_skips_headers() {
    let output =
        "Updating and loading repositories:\nRepositories loaded.\nMatched fields: name\n";
    let packages = parse_search_output(output);
    assert!(packages.is_empty());
}

#[test]
fn test_parse_check_upgrade() {
    let updates = parse_check_upgrade_output(DNF_CHECK_UPGRADE_OUTPUT);
    assert_eq!(updates.len(), 2);

    assert_eq!(updates[0].name, "bash");
    assert_eq!(updates[0].arch.as_deref(), Some("x86_64"));
    assert_eq!(updates[0].available_version, "5.2.38-1.fc43");
    assert_eq!(updates[0].source, SourceType::Dnf);

    assert_eq!(updates[1].name, "vim-enhanced");
    assert_eq!(updates[1].arch.as_deref(), Some("x86_64"));
    assert_eq!(updates[1].available_version, "9.1.900-1.fc43");
}

#[test]
fn dnf_test_parse_empty() {
    assert!(parse_search_output("").is_empty());
    assert!(parse_check_upgrade_output("").is_empty());
}

const DNF_GPG_PROMPT_STDERR: &str = "Importing OpenPGP key 0xDE226D6F:\n UserID     : \"Terra 44 <security@fyralabs.com>\"\n Fingerprint: AE09157A4DE88B497EA1D5D300CDAB43DE226D6F\n From       : file:///etc/pki/rpm-gpg/RPM-GPG-KEY-terra44\nIs this ok [y/N]: Importing OpenPGP key 0x2FFEB650:\n UserID     : \"Terra 44 - Mesa <security@fyralabs.com>\"\n Fingerprint: BED73E7D401960C590E45D957A3DC3E02FFEB650\n From       : file:///etc/pki/rpm-gpg/RPM-GPG-KEY-terra44-mesa\nIs this ok [y/N]: ";

#[test]
fn test_parse_pending_gpg_keys() {
    let keys = parse_pending_gpg_keys(DNF_GPG_PROMPT_STDERR);
    assert_eq!(keys.len(), 2);

    assert_eq!(keys[0].key_id, "0xDE226D6F");
    assert_eq!(keys[0].user_id, "Terra 44 <security@fyralabs.com>");
    assert_eq!(
        keys[0].fingerprint,
        "AE09157A4DE88B497EA1D5D300CDAB43DE226D6F"
    );

    assert_eq!(keys[1].key_id, "0x2FFEB650");
    assert_eq!(keys[1].user_id, "Terra 44 - Mesa <security@fyralabs.com>");
    assert_eq!(
        keys[1].fingerprint,
        "BED73E7D401960C590E45D957A3DC3E02FFEB650"
    );
}

#[test]
fn test_parse_pending_gpg_keys_none() {
    assert!(parse_pending_gpg_keys("").is_empty());
    assert!(parse_pending_gpg_keys(" bash.x86_64  5.2.38-1.fc43  updates\n").is_empty());
}

#[test]
fn test_parse_pending_gpg_keys_single() {
    let stderr = "Importing OpenPGP key 0xABCD1234:\n UserID     : \"Fedora <fedora@example.com>\"\n Fingerprint: 1111222233334444555566667777888899990000\n From       : file:///etc/pki/rpm-gpg/RPM-GPG-KEY-fedora\nIs this ok [y/N]: ";
    let keys = parse_pending_gpg_keys(stderr);
    assert_eq!(keys.len(), 1);
    assert_eq!(keys[0].key_id, "0xABCD1234");
    assert_eq!(keys[0].user_id, "Fedora <fedora@example.com>");
    assert_eq!(
        keys[0].fingerprint,
        "1111222233334444555566667777888899990000"
    );
}

#[test]
fn test_parse_pending_gpg_keys_missing_userid() {
    let stderr =
        "Importing OpenPGP key 0xDEADBEEF:\n Fingerprint: AAAABBBBCCCCDDDD\nIs this ok [y/N]: ";
    let keys = parse_pending_gpg_keys(stderr);
    assert_eq!(keys.len(), 1);
    assert_eq!(keys[0].key_id, "0xDEADBEEF");
    assert_eq!(keys[0].user_id, "");
    assert_eq!(keys[0].fingerprint, "AAAABBBBCCCCDDDD");
}

const DNF_LIST_INSTALLED_OUTPUT: &str = "bash.x86_64\t5.2.37-3.fc43\tThe GNU Bourne Again shell\nvim-enhanced.x86_64\t9.1.900-1.fc43\tA version of the VIM editor\n";

#[test]
fn dnf_test_parse_list_installed() {
    let packages = parse_list_installed_output(DNF_LIST_INSTALLED_OUTPUT);
    assert_eq!(packages.len(), 2);

    assert_eq!(packages[0].name, "bash");
    assert_eq!(packages[0].arch.as_deref(), Some("x86_64"));
    assert_eq!(packages[0].version, "5.2.37-3.fc43");
    assert_eq!(packages[0].source, SourceType::Dnf);
    assert_eq!(
        packages[0].description.as_deref(),
        Some("The GNU Bourne Again shell")
    );

    assert_eq!(packages[1].name, "vim-enhanced");
    assert_eq!(packages[1].version, "9.1.900-1.fc43");
    assert_eq!(
        packages[1].description.as_deref(),
        Some("A version of the VIM editor")
    );
}

#[test]
fn dnf_test_parse_list_installed_empty() {
    assert!(parse_list_installed_output("").is_empty());
}

#[test]
fn test_parse_search_multiline_description() {
    let output = " ripgrep.x86_64\tLine-oriented search tool\n";
    let packages = parse_search_output(output);
    assert_eq!(packages.len(), 1);
    assert_eq!(packages[0].name, "ripgrep");
    assert!(
        packages[0]
            .description
            .as_ref()
            .unwrap()
            .contains("Line-oriented")
    );
}

const DNF_REPO_LIST_JSON: &str = r#"[
    {"id": "fedora", "name": "Fedora 43 - x86_64", "is_enabled": true},
    {"id": "updates", "name": "Fedora 43 - x86_64 - Updates", "is_enabled": true},
    {"id": "updates-testing", "name": "Fedora 43 - x86_64 - Test Updates", "is_enabled": false}
]"#;

#[test]
fn test_parse_repo_list_json() {
    let repos = parse_repo_list_json(DNF_REPO_LIST_JSON).unwrap();
    assert_eq!(repos.len(), 3);

    assert_eq!(repos[0].id, "fedora");
    assert_eq!(repos[0].name, "Fedora 43 - x86_64");
    assert!(repos[0].enabled);
    assert_eq!(repos[0].source, SourceType::Dnf);
    assert!(repos[0].url.is_none());

    assert_eq!(repos[2].id, "updates-testing");
    assert!(!repos[2].enabled);
}

#[test]
fn test_parse_repo_list_json_empty() {
    let repos = parse_repo_list_json("[]").unwrap();
    assert!(repos.is_empty());
}

#[test]
fn test_parse_repo_list_json_invalid() {
    let result = parse_repo_list_json("not json");
    assert!(result.is_err());
}

#[test]
fn test_parse_dotted_package_names() {
    let output = " python3.11.x86_64\tPython 3.11 interpreter\n python3.12.x86_64\tPython 3.12 interpreter\n";
    let packages = parse_search_output(output);
    assert_eq!(packages.len(), 2);
    assert_eq!(packages[0].name, "python3.11");
    assert_eq!(packages[0].arch.as_deref(), Some("x86_64"));
    assert_eq!(packages[1].name, "python3.12");
    assert_eq!(packages[1].arch.as_deref(), Some("x86_64"));
}

#[test]
fn test_parse_dotted_package_check_upgrade() {
    let output = " python3.11.x86_64              3.11.12-1.fc43                   updates\n";
    let updates = parse_check_upgrade_output(output);
    assert_eq!(updates.len(), 1);
    assert_eq!(updates[0].name, "python3.11");
    assert_eq!(updates[0].arch.as_deref(), Some("x86_64"));
    assert_eq!(updates[0].available_version, "3.11.12-1.fc43");
}

#[test]
fn test_parse_dotted_package_list_installed() {
    let output = "python3.11.x86_64\t3.11.11-1.fc43\tPython 3.11 interpreter\n";
    let packages = parse_list_installed_output(output);
    assert_eq!(packages.len(), 1);
    assert_eq!(packages[0].name, "python3.11");
    assert_eq!(packages[0].arch.as_deref(), Some("x86_64"));
    assert_eq!(packages[0].version, "3.11.11-1.fc43");
}

const DNF_UNNEEDED_OUTPUT: &str = "libfoo.x86_64\t1.2-3.fc44\t1258291\npython3-bar.noarch\t0.4-1.fc44\t348160\nkernel-devel.x86_64\t7.2.5-200.fc44\t70000000\nkernelshark.x86_64\t2.3-1.fc44\t5000\nkernel-core.x86_64\t7.2.5-200.fc44\t106627293\nkernel-debug-core.x86_64\t7.2.5-200.fc44\t90000000\n";

const RPM_KERNEL_PACKAGES: &str = "kernel-modules-core\t7.2.5-200.fc44.x86_64\t77444095\nkernel-core\t7.2.5-200.fc44.x86_64\t106627293\nkernel-modules\t7.2.5-200.fc44.x86_64\t105470864\nkernel\t7.2.5-200.fc44.x86_64\t0\nkernel-debug-core\t7.2.5-200.fc44.x86_64\t90000000\nkernel-core\t7.2.50-200.fc44.x86_64\t1\nkernel-core\t7.2.6-200.fc44.x86_64\t106655508\nkernel\t7.2.6-200.fc44.x86_64\t0\nkernel-devel\t7.2.5-200.fc44.x86_64\t70000000\nno package provides installonlypkg(kernel-module)\n";

#[test]
fn test_parse_unneeded() {
    assert!(parse_unneeded_output("", &[]).is_empty());
    assert!(
        parse_unneeded_output("kernel-core.x86_64\t7.2.5-200.fc44\t106627293\n", &[])
            .is_empty()
    );
    let installonly_owned = installonly_names(RPM_KERNEL_PACKAGES);
    let installonly: Vec<&str> = installonly_owned.iter().map(|s| s.as_str()).collect();
    let items = parse_unneeded_output(DNF_UNNEEDED_OUTPUT, &installonly);
    let names: Vec<&str> = items.iter().map(|i| i.name.as_str()).collect();
    assert_eq!(
        names,
        vec!["libfoo.x86_64", "python3-bar.noarch", "kernelshark.x86_64"]
    );
    assert_eq!(items[0].version, "1.2-3.fc44");
    assert_eq!(items[0].size, Some(1258291));
    assert_eq!(items[0].kind, CleanupKind::Orphan);
    assert_eq!(items[0].source, SourceType::Dnf);
}

#[test]
fn test_orphan_nevra() {
    assert_eq!(
        orphan_nevra("kernel-devel.x86_64", "7.2.5-200.fc44"),
        "kernel-devel-7.2.5-200.fc44.x86_64"
    );
    assert_eq!(
        orphan_nevra("python3.11.x86_64", "3.11.11-1.fc44"),
        "python3.11-3.11.11-1.fc44.x86_64"
    );
    assert_eq!(orphan_nevra("libfoo.x86_64", ""), "libfoo.x86_64");
}

#[test]
fn test_parse_kernel_packages_skips_variants_and_messages() {
    let rows = parse_kernel_packages(RPM_KERNEL_PACKAGES);
    assert_eq!(rows.len(), 8);
    assert!(rows.iter().all(|r| r.name != "kernel-debug-core"));
    assert!(
        parse_kernel_packages("no package provides installonlypkg(kernel-module)\n").is_empty()
    );
}

#[test]
fn test_kernel_versions_sums_sizes() {
    assert!(kernel_versions(&parse_kernel_packages("")).is_empty());
    let rows = parse_kernel_packages(RPM_KERNEL_PACKAGES);
    let versions = kernel_versions(&rows);
    assert_eq!(versions.len(), 3);
    assert_eq!(
        versions[0],
        (
            "7.2.5-200.fc44.x86_64".to_string(),
            Some(77444095 + 106627293 + 105470864 + 70000000)
        )
    );
}

#[test]
fn test_kernel_packages_for_exact_version() {
    let rows = parse_kernel_packages(RPM_KERNEL_PACKAGES);
    let pkgs = kernel_packages_for(&rows, "7.2.5-200.fc44.x86_64");
    assert_eq!(
        pkgs,
        vec![
            "kernel-modules-core-7.2.5-200.fc44.x86_64",
            "kernel-core-7.2.5-200.fc44.x86_64",
            "kernel-modules-7.2.5-200.fc44.x86_64",
            "kernel-7.2.5-200.fc44.x86_64",
            "kernel-devel-7.2.5-200.fc44.x86_64",
        ]
    );
}

const DNF_REMOVE_PREVIEW: &str = "Package              Arch   Version          Repository      Size\nRemoving:\n kernel-core         x86_64 0:7.2.5-200.fc44 updates    101.7 MiB\nRemoving dependent packages:\n kernel              x86_64 0:7.2.5-200.fc44 updates      0.0   B\n kernel-modules      x86_64 0:7.2.5-200.fc44 updates    100.6 MiB\n kernel-modules-core x86_64 0:7.2.5-200.fc44 updates     73.9 MiB\n\nTransaction Summary:\n Removing:           4 packages\n";

fn preview(output: &str, requested: &[&str]) -> Result<Vec<String>> {
    let requested: Vec<String> = requested.iter().map(|s| s.to_string()).collect();
    extra_removals(parse_remove_preview(output), &requested, SourceType::Dnf)
}

#[test]
fn dnf_test_parse_remove_preview() {
    assert_eq!(
        preview(DNF_REMOVE_PREVIEW, &["kernel-core-7.2.5-200.fc44.x86_64"]).unwrap(),
        vec![
            "kernel-7.2.5-200.fc44.x86_64",
            "kernel-modules-7.2.5-200.fc44.x86_64",
            "kernel-modules-core-7.2.5-200.fc44.x86_64",
        ]
    );
    let unused = "Removing:\n libfoo x86_64 2:1.2-3.fc44 fedora 1.0 MiB\nRemoving unused dependencies:\n libbar noarch 0.4-1.fc44 fedora 10.0 KiB\n";
    assert_eq!(
        preview(unused, &["libfoo-1.2-3.fc44.x86_64"]).unwrap(),
        vec!["libbar-0.4-1.fc44.noarch"]
    );
}

#[test]
fn test_parse_remove_preview_missing_requested_is_error() {
    let requested = ["libfoo-1.2-3.fc44.x86_64"];
    let nothing =
        "No packages to remove for argument: libfoo-1.2-3.fc44.x86_64\n\nNothing to do.\n";
    for output in ["", nothing] {
        assert!(matches!(
            preview(output, &requested),
            Err(PikeError::Parse { .. })
        ));
    }
}
