use pike::cleanup::extra_removals;
use pike::package::{CleanupItem, CleanupKind, SourceType};
use pike::source::apt::{
    apt_kernel_packages_for, apt_old_kernel_items, parse_apt_kernels, parse_autoremove_sim,
    parse_check_updates_output, parse_deb822_sources, parse_installed_sizes,
    parse_linux_packages, parse_list_installed_output, parse_remove_preview, parse_search_output,
    parse_sources_list, LinuxPackage,
};

const APT_SEARCH_OUTPUT: &str = "firefox - Safe and easy web browser from Mozilla\nfirefox-locale-en - English language pack for Firefox\nchromium - open-source version of Chrome\n";

#[test]
fn apt_test_parse_search() {
    let packages = parse_search_output(APT_SEARCH_OUTPUT);
    assert_eq!(packages.len(), 3);

    assert_eq!(packages[0].name, "firefox");
    assert_eq!(
        packages[0].description.as_deref(),
        Some("Safe and easy web browser from Mozilla")
    );
    assert_eq!(packages[0].source, SourceType::Apt);

    assert_eq!(packages[1].name, "firefox-locale-en");
    assert_eq!(
        packages[1].description.as_deref(),
        Some("English language pack for Firefox")
    );

    assert_eq!(packages[2].name, "chromium");
    assert_eq!(
        packages[2].description.as_deref(),
        Some("open-source version of Chrome")
    );
}

#[test]
fn test_parse_search_empty() {
    assert!(parse_search_output("").is_empty());
}

const APT_CHECK_UPDATES_OUTPUT: &str = "Inst bash [5.2.21-2] (5.2.21-3 Ubuntu:24.04/noble-updates [amd64])\nInst vim [2:9.1.0-1] (2:9.1.0-2 Ubuntu:24.04/noble-updates [amd64])\nConf bash (5.2.21-3 Ubuntu:24.04/noble-updates [amd64])\nConf vim (2:9.1.0-2 Ubuntu:24.04/noble-updates [amd64])\n";

#[test]
fn test_parse_check_updates() {
    let updates = parse_check_updates_output(APT_CHECK_UPDATES_OUTPUT);
    assert_eq!(updates.len(), 2);

    assert_eq!(updates[0].name, "bash");
    assert_eq!(updates[0].installed_version, "5.2.21-2");
    assert_eq!(updates[0].available_version, "5.2.21-3");
    assert_eq!(updates[0].arch.as_deref(), Some("amd64"));
    assert_eq!(updates[0].source, SourceType::Apt);

    assert_eq!(updates[1].name, "vim");
    assert_eq!(updates[1].installed_version, "2:9.1.0-1");
    assert_eq!(updates[1].available_version, "2:9.1.0-2");
    assert_eq!(updates[1].arch.as_deref(), Some("amd64"));
}

#[test]
fn test_parse_check_updates_no_old_version() {
    let input = "Inst newpkg (1.0-1 Ubuntu:24.04/noble [amd64])\nConf newpkg (1.0-1 Ubuntu:24.04/noble [amd64])\n";
    let updates = parse_check_updates_output(input);
    assert_eq!(updates.len(), 1);
    assert_eq!(updates[0].name, "newpkg");
    assert_eq!(updates[0].installed_version, "");
    assert_eq!(updates[0].available_version, "1.0-1");
    assert_eq!(updates[0].arch.as_deref(), Some("amd64"));
}

#[test]
fn test_parse_check_updates_empty() {
    assert!(parse_check_updates_output("").is_empty());
}

const APT_LIST_INSTALLED_OUTPUT: &str = "bash\t5.2.21-2\tamd64\tGNU Bourne Again SHell\nvim\t2:9.1.0-1\tamd64\tVi IMproved - enhanced vi editor\ncoreutils\t9.4-2\tamd64\tGNU core utilities\n";

#[test]
fn apt_test_parse_list_installed() {
    let packages = parse_list_installed_output(APT_LIST_INSTALLED_OUTPUT);
    assert_eq!(packages.len(), 3);

    assert_eq!(packages[0].name, "bash");
    assert_eq!(packages[0].version, "5.2.21-2");
    assert_eq!(packages[0].arch.as_deref(), Some("amd64"));
    assert_eq!(packages[0].source, SourceType::Apt);
    assert_eq!(
        packages[0].description.as_deref(),
        Some("GNU Bourne Again SHell")
    );

    assert_eq!(packages[1].name, "vim");
    assert_eq!(packages[1].version, "2:9.1.0-1");
    assert_eq!(
        packages[1].description.as_deref(),
        Some("Vi IMproved - enhanced vi editor")
    );

    assert_eq!(packages[2].name, "coreutils");
    assert_eq!(packages[2].version, "9.4-2");
    assert_eq!(
        packages[2].description.as_deref(),
        Some("GNU core utilities")
    );
}

#[test]
fn apt_test_parse_list_installed_empty() {
    assert!(parse_list_installed_output("").is_empty());
}

const APT_SOURCES_OUTPUT: &str = "deb http://archive.ubuntu.com/ubuntu noble main restricted\ndeb http://archive.ubuntu.com/ubuntu noble-updates main restricted\ndeb http://ppa.launchpad.net/user/ppa-name/ubuntu noble main\n";

#[test]
fn test_parse_sources_list() {
    let repos = parse_sources_list(APT_SOURCES_OUTPUT);
    assert_eq!(repos.len(), 3);

    assert_eq!(
        repos[0].id,
        "http://archive.ubuntu.com/ubuntu noble main restricted"
    );
    assert_eq!(repos[0].name, "http://archive.ubuntu.com/ubuntu");
    assert_eq!(
        repos[0].url.as_deref(),
        Some("http://archive.ubuntu.com/ubuntu")
    );
    assert!(repos[0].enabled);
    assert_eq!(repos[0].source, SourceType::Apt);

    assert_eq!(
        repos[1].id,
        "http://archive.ubuntu.com/ubuntu noble-updates main restricted"
    );

    assert_eq!(
        repos[2].id,
        "http://ppa.launchpad.net/user/ppa-name/ubuntu noble main"
    );
}

#[test]
fn test_parse_sources_list_empty() {
    assert!(parse_sources_list("").is_empty());
}

#[test]
fn test_parse_sources_list_skips_comments() {
    let input = "# A comment\ndeb http://example.com/repo stable main\n# deb-src http://example.com/repo stable main\n";
    let repos = parse_sources_list(input);
    assert_eq!(repos.len(), 1);
    assert_eq!(repos[0].name, "http://example.com/repo");
}

const DEB822_SOURCES: &str = "\
Types: deb
URIs: http://archive.ubuntu.com/ubuntu/
Suites: noble noble-updates noble-backports
Components: main universe restricted multiverse
Signed-By: /usr/share/keyrings/ubuntu-archive-keyring.gpg

Types: deb
URIs: http://security.ubuntu.com/ubuntu/
Suites: noble-security
Components: main universe restricted multiverse
Signed-By: /usr/share/keyrings/ubuntu-archive-keyring.gpg
";

#[test]
fn test_parse_deb822_sources() {
    let repos = parse_deb822_sources(DEB822_SOURCES);
    assert_eq!(repos.len(), 2);

    assert_eq!(repos[0].name, "http://archive.ubuntu.com/ubuntu/");
    assert_eq!(
        repos[0].id,
        "http://archive.ubuntu.com/ubuntu/ noble noble-updates noble-backports main universe restricted multiverse"
    );
    assert_eq!(
        repos[0].url.as_deref(),
        Some("http://archive.ubuntu.com/ubuntu/")
    );
    assert!(repos[0].enabled);
    assert_eq!(repos[0].source, SourceType::Apt);

    assert_eq!(repos[1].name, "http://security.ubuntu.com/ubuntu/");
    assert_eq!(
        repos[1].id,
        "http://security.ubuntu.com/ubuntu/ noble-security main universe restricted multiverse"
    );
}

#[test]
fn test_parse_deb822_sources_empty() {
    assert!(parse_deb822_sources("").is_empty());
}

#[test]
fn test_parse_deb822_sources_disabled() {
    let input = "\
Types: deb
URIs: http://example.com/repo/
Suites: stable
Components: main
Enabled: no
";
    let repos = parse_deb822_sources(input);
    assert_eq!(repos.len(), 1);
    assert!(!repos[0].enabled);
}

#[test]
fn test_parse_deb822_sources_skips_deb_src_only() {
    let input = "\
Types: deb-src
URIs: http://example.com/repo/
Suites: stable
Components: main
";
    let repos = parse_deb822_sources(input);
    assert!(repos.is_empty());
}

#[test]
fn test_parse_deb822_sources_with_comments() {
    let input = "\
## Ubuntu distribution repository
Types: deb
URIs: http://archive.ubuntu.com/ubuntu/
Suites: noble
Components: main
";
    let repos = parse_deb822_sources(input);
    assert_eq!(repos.len(), 1);
    assert_eq!(repos[0].name, "http://archive.ubuntu.com/ubuntu/");
}

#[test]
fn test_parse_deb822_sources_case_insensitive() {
    let input = "\
types: deb
uris: http://example.com/repo/
suites: stable
components: main
";
    let repos = parse_deb822_sources(input);
    assert_eq!(repos.len(), 1);
    assert_eq!(repos[0].name, "http://example.com/repo/");
    assert_eq!(repos[0].id, "http://example.com/repo/ stable main");
}

#[test]
fn test_parse_deb822_sources_multiple_uris() {
    let input = "\
Types: deb
URIs: http://archive.ubuntu.com/ubuntu/ http://mirror.example.com/ubuntu/
Suites: noble
Components: main
";
    let repos = parse_deb822_sources(input);
    assert_eq!(repos.len(), 2);
    assert_eq!(repos[0].name, "http://archive.ubuntu.com/ubuntu/");
    assert_eq!(repos[1].name, "http://mirror.example.com/ubuntu/");
}

#[test]
fn test_parse_deb822_sources_deb_and_deb_src() {
    let input = "\
Types: deb deb-src
URIs: http://archive.ubuntu.com/ubuntu/
Suites: noble
Components: main
";
    let repos = parse_deb822_sources(input);
    assert_eq!(repos.len(), 1);
    assert_eq!(repos[0].name, "http://archive.ubuntu.com/ubuntu/");
}

#[test]
fn test_parse_deb822_sources_no_suites_no_components() {
    let input = "\
Types: deb
URIs: http://example.com/flat-repo/
";
    let repos = parse_deb822_sources(input);
    assert_eq!(repos.len(), 1);
    assert_eq!(repos[0].id, "http://example.com/flat-repo/");
}

#[test]
fn test_parse_check_updates_no_arch_bracket() {
    let input = "Inst pkg [1.0] (2.0 Debian:stable)\nConf pkg (2.0 Debian:stable)\n";
    let updates = parse_check_updates_output(input);
    assert_eq!(updates.len(), 1);
    assert_eq!(updates[0].name, "pkg");
    assert_eq!(updates[0].installed_version, "1.0");
    assert_eq!(updates[0].available_version, "2.0");
    assert!(updates[0].arch.is_none());
}

#[test]
fn test_parse_list_installed_empty_description() {
    let input = "meta-pkg\t1.0\tamd64\t\n";
    let packages = parse_list_installed_output(input);
    assert_eq!(packages.len(), 1);
    assert_eq!(packages[0].name, "meta-pkg");
    assert!(packages[0].description.is_none());
}

#[test]
fn test_parse_list_installed_missing_description() {
    let input = "some-lib\t2.0\tamd64\n";
    let packages = parse_list_installed_output(input);
    assert_eq!(packages.len(), 1);
    assert_eq!(packages[0].name, "some-lib");
    assert!(packages[0].description.is_none());
}

#[test]
fn test_parse_sources_list_skips_deb_src() {
    let input = "deb http://example.com/repo stable main\ndeb-src http://example.com/repo stable main\n";
    let repos = parse_sources_list(input);
    assert_eq!(repos.len(), 1);
    assert_eq!(repos[0].name, "http://example.com/repo");
}

#[test]
fn test_parse_search_description_with_dash() {
    let input = "vim-runtime - Vi IMproved - Runtime files\n";
    let packages = parse_search_output(input);
    assert_eq!(packages.len(), 1);
    assert_eq!(packages[0].name, "vim-runtime");
    assert_eq!(
        packages[0].description.as_deref(),
        Some("Vi IMproved - Runtime files")
    );
}

const APT_AUTOREMOVE_SIM: &str = "NOTE: This is only a simulation!\nReading package lists...\nRemv libfoo1 [1.2-3]\nRemv linux-image-6.8.0-45-generic [6.8.0-45.45]\nRemv linux-modules-6.8.0-45-generic [6.8.0-45.45]\nRemv linux-tools-6.8.0-45 [6.8.0-45.45]\nRemv python3-bar [0.4-1]\nRemv libbaz1:i386 [1.0]\n";

const APT_SIZES: &str =
    "libfoo1\t1229\npython3-bar\t340\nlibbaz1:i386\t77\nlibqux1:amd64\t10\n";

const APT_LINUX_PACKAGES: &str = "ii \tlinux-image-6.8.0-45-generic\t14000\nii \tlinux-modules-6.8.0-45-generic\t80000\nii \tlinux-modules-extra-6.8.0-45-generic\t200000\nii \tlinux-headers-6.8.0-45-generic\t3000\nii \tlinux-headers-6.8.0-45\t90000\nii \tlinux-tools-6.8.0-45-generic\t500\nii \tlinux-tools-6.8.0-45\t700\nii \tlinux-tools-common\t20\nhi \tlinux-image-6.8.0-100-generic\t14100\nii \tlinux-image-6.8.0-90-generic\t14050\nii \tlinux-headers-generic\t10\nrc \tlinux-image-6.8.0-30-generic\t13900\nrc \tlinux-modules-6.8.0-30-generic\t1\n";

const APT_LINUX_TWO_FLAVOURS: &str = "ii \tlinux-image-6.8.0-45-generic\t14000\nii \tlinux-headers-6.8.0-45-generic\t3000\nii \tlinux-image-6.8.0-45-lowlatency\t14000\nii \tlinux-headers-6.8.0-45-lowlatency\t3000\nii \tlinux-headers-6.8.0-45\t90000\n";

#[test]
fn test_parse_autoremove_sim_excludes_kernels() {
    let items = parse_autoremove_sim(APT_AUTOREMOVE_SIM);
    let names: Vec<&str> = items.iter().map(|i| i.name.as_str()).collect();
    assert_eq!(names, vec!["libfoo1", "python3-bar", "libbaz1:i386"]);
    assert_eq!(items[0].version, "1.2-3");
    assert_eq!(items[0].kind, CleanupKind::Orphan);
    assert_eq!(items[0].source, SourceType::Apt);
}

#[test]
fn test_parse_installed_sizes_multiarch() {
    let expected: std::collections::HashMap<String, u64> = [
        ("libfoo1", 1229),
        ("python3-bar", 340),
        ("libbaz1:i386", 77),
        ("libbaz1", 77),
        ("libqux1:amd64", 10),
        ("libqux1", 10),
    ]
    .into_iter()
    .map(|(name, kib)| (name.to_string(), kib * 1024))
    .collect();
    let got: std::collections::HashMap<String, u64> =
        parse_installed_sizes(APT_SIZES).into_iter().collect();
    assert_eq!(parse_installed_sizes(APT_SIZES).len(), expected.len());
    assert_eq!(got, expected);
}

fn names(pkgs: Vec<LinuxPackage>) -> Vec<String> {
    pkgs.into_iter().map(|p| p.name).collect()
}

#[test]
fn test_parse_apt_kernels() {
    assert!(parse_apt_kernels(&parse_linux_packages("")).is_empty());
    let linux = parse_linux_packages(APT_LINUX_PACKAGES);
    let k = parse_apt_kernels(&linux);
    let versions: Vec<&str> = k.iter().map(|(v, ..)| v.as_str()).collect();
    assert_eq!(
        versions,
        vec!["6.8.0-45-generic", "6.8.0-100-generic", "6.8.0-90-generic"]
    );
    assert_eq!(
        k[0].1,
        Some((14000 + 80000 + 200000 + 3000 + 90000 + 500 + 700) * 1024)
    );
    assert_eq!(k[1].1, Some(14100 * 1024));
}

#[test]
fn test_parse_apt_kernels_skips_dbg_and_unsigned() {
    let linux = parse_linux_packages(
        "ii \tlinux-image-6.8.0-45-generic\t1\nii \tlinux-image-6.8.0-45-generic-dbg\t1\nii \tlinux-image-6.8.0-45-generic-dbgsym\t1\nii \tlinux-image-6.8.0-45-unsigned\t1\n",
    );
    let k = parse_apt_kernels(&linux);
    assert_eq!(k.len(), 1);
    assert_eq!(k[0].0, "6.8.0-45-generic");
}

#[test]
fn test_parse_linux_packages_status() {
    let linux = parse_linux_packages(
        "hi \tlinux-image-6.8.0-45-generic\t1\nrc \tlinux-image-6.8.0-30-generic\t1\niU \tlinux-image-6.8.0-31-generic\t1\n",
    );
    assert_eq!(
        linux,
        vec![LinuxPackage {
            name: "linux-image-6.8.0-45-generic".to_string(),
            size: Some(1024),
            held: true,
        }]
    );
}

#[test]
fn test_apt_old_kernel_items_held() {
    let linux = parse_linux_packages(APT_LINUX_PACKAGES);
    let versions = |items: Vec<CleanupItem>| -> Vec<String> {
        items.into_iter().map(|i| i.version).collect()
    };
    assert_eq!(
        versions(apt_old_kernel_items(&linux, Some("7.0.0-1-generic"), 1)),
        vec!["6.8.0-90-generic", "6.8.0-45-generic"]
    );
    let held_old = parse_linux_packages(
        "ii \tlinux-image-6.8.0-100-generic\t1\nhi \tlinux-image-6.8.0-45-generic\t1\nii \tlinux-image-6.8.0-30-generic\t1\n",
    );
    assert_eq!(
        versions(apt_old_kernel_items(
            &held_old,
            Some("6.8.0-100-generic"),
            1
        )),
        vec!["6.8.0-30-generic"]
    );
    let held_headers = parse_linux_packages(
        "ii \tlinux-image-6.8.0-100-generic\t1\nii \tlinux-image-6.8.0-45-generic\t1\nhi \tlinux-headers-6.8.0-45-generic\t1\nii \tlinux-image-6.8.0-30-generic\t1\nhi \tlinux-modules-6.8.0-3-generic\t1\n",
    );
    assert_eq!(
        versions(apt_old_kernel_items(
            &held_headers,
            Some("6.8.0-100-generic"),
            1
        )),
        vec!["6.8.0-30-generic"]
    );
}

#[test]
fn test_apt_kernel_packages_for() {
    let linux = parse_linux_packages(APT_LINUX_PACKAGES);
    assert_eq!(
        names(apt_kernel_packages_for(
            &linux,
            "6.8.0-45-generic",
            &["6.8.0-45-generic"]
        )),
        vec![
            "linux-image-6.8.0-45-generic",
            "linux-modules-6.8.0-45-generic",
            "linux-modules-extra-6.8.0-45-generic",
            "linux-headers-6.8.0-45-generic",
            "linux-headers-6.8.0-45",
            "linux-tools-6.8.0-45-generic",
            "linux-tools-6.8.0-45",
        ]
    );
    assert_eq!(
        apt_kernel_packages_for(&linux, "6.8.0-30-generic", &["6.8.0-30-generic"]).len(),
        0
    );
}

#[test]
fn test_apt_kernel_packages_for_keeps_shared_headers_of_kept_flavour() {
    let linux = parse_linux_packages(APT_LINUX_TWO_FLAVOURS);
    assert_eq!(
        names(apt_kernel_packages_for(
            &linux,
            "6.8.0-45-generic",
            &["6.8.0-45-generic"]
        )),
        vec![
            "linux-image-6.8.0-45-generic",
            "linux-headers-6.8.0-45-generic"
        ]
    );
}

#[test]
fn test_apt_kernel_packages_for_shared_headers_when_all_flavours_removed() {
    let linux = parse_linux_packages(APT_LINUX_TWO_FLAVOURS);
    let removing = ["6.8.0-45-generic", "6.8.0-45-lowlatency"];
    for v in removing {
        assert!(
            names(apt_kernel_packages_for(&linux, v, &removing))
                .iter()
                .any(|n| n == "linux-headers-6.8.0-45")
        );
    }
}

const APT_LINUX_DEBIAN: &str = "ii \tlinux-image-6.1.0-25-amd64\t1\nii \tlinux-headers-6.1.0-25-amd64\t1\nii \tlinux-image-6.1.0-25-cloud-amd64\t1\nii \tlinux-headers-6.1.0-25-cloud-amd64\t1\nii \tlinux-headers-6.1.0-25-common\t1\nii \tlinux-image-6.1.0-26-amd64\t1\n";

#[test]
fn test_apt_kernel_packages_for_debian_flavours() {
    let linux = parse_linux_packages(APT_LINUX_DEBIAN);
    assert_eq!(
        names(apt_kernel_packages_for(
            &linux,
            "6.1.0-25-amd64",
            &["6.1.0-25-amd64"]
        )),
        vec!["linux-image-6.1.0-25-amd64", "linux-headers-6.1.0-25-amd64"]
    );
    let removing = ["6.1.0-25-amd64", "6.1.0-25-cloud-amd64"];
    assert_eq!(
        names(apt_kernel_packages_for(
            &linux,
            "6.1.0-25-cloud-amd64",
            &removing
        )),
        vec![
            "linux-image-6.1.0-25-cloud-amd64",
            "linux-headers-6.1.0-25-cloud-amd64",
            "linux-headers-6.1.0-25-common",
        ]
    );
}

const APT_LINUX_DEBIAN13: &str = "ii \tlinux-image-6.12.43+deb13-amd64\t1\nii \tlinux-headers-6.12.43+deb13-amd64\t1\nii \tlinux-image-6.12.43+deb13-cloud-amd64\t1\nii \tlinux-headers-6.12.43+deb13-cloud-amd64\t1\nii \tlinux-headers-6.12.43+deb13-common\t1\nii \tlinux-image-6.12.48+deb13-amd64\t1\nii \tlinux-headers-6.12.48+deb13-amd64\t1\nii \tlinux-headers-6.12.48+deb13-common\t1\n";

#[test]
fn test_apt_kernel_packages_for_debian13_flavours() {
    let linux = parse_linux_packages(APT_LINUX_DEBIAN13);
    assert_eq!(
        names(apt_kernel_packages_for(
            &linux,
            "6.12.43+deb13-amd64",
            &["6.12.43+deb13-amd64"]
        )),
        vec![
            "linux-image-6.12.43+deb13-amd64",
            "linux-headers-6.12.43+deb13-amd64"
        ]
    );
    let removing = ["6.12.43+deb13-amd64", "6.12.43+deb13-cloud-amd64"];
    assert_eq!(
        names(apt_kernel_packages_for(
            &linux,
            "6.12.43+deb13-cloud-amd64",
            &removing
        )),
        vec![
            "linux-image-6.12.43+deb13-cloud-amd64",
            "linux-headers-6.12.43+deb13-cloud-amd64",
            "linux-headers-6.12.43+deb13-common",
        ]
    );
    assert_eq!(
        names(apt_kernel_packages_for(
            &linux,
            "6.12.48+deb13-amd64",
            &["6.12.48+deb13-amd64"]
        )),
        vec![
            "linux-image-6.12.48+deb13-amd64",
            "linux-headers-6.12.48+deb13-amd64",
            "linux-headers-6.12.48+deb13-common",
        ]
    );
}

const APT_LINUX_64K: &str = "ii \tlinux-image-6.8.0-45-generic\t1\nii \tlinux-headers-6.8.0-45-generic\t1\nii \tlinux-tools-6.8.0-45-generic\t1\nii \tlinux-image-6.8.0-45-generic-64k\t1\nii \tlinux-headers-6.8.0-45-generic-64k\t1\nii \tlinux-tools-6.8.0-45-generic-64k\t1\nii \tlinux-headers-6.8.0-45\t1\nii \tlinux-tools-6.8.0-45\t1\n";

#[test]
fn test_apt_kernel_packages_for_prefix_flavour() {
    let linux = parse_linux_packages(APT_LINUX_64K);
    assert_eq!(
        names(apt_kernel_packages_for(
            &linux,
            "6.8.0-45-generic-64k",
            &["6.8.0-45-generic-64k"]
        )),
        vec![
            "linux-image-6.8.0-45-generic-64k",
            "linux-headers-6.8.0-45-generic-64k",
            "linux-tools-6.8.0-45-generic-64k",
        ]
    );
    let removing = ["6.8.0-45-generic", "6.8.0-45-generic-64k"];
    assert_eq!(
        names(apt_kernel_packages_for(
            &linux,
            "6.8.0-45-generic-64k",
            &removing
        )),
        vec![
            "linux-image-6.8.0-45-generic-64k",
            "linux-headers-6.8.0-45-generic-64k",
            "linux-tools-6.8.0-45-generic-64k",
            "linux-headers-6.8.0-45",
            "linux-tools-6.8.0-45",
        ]
    );
}

const APT_LINUX_AWS: &str = "ii \tlinux-image-6.8.0-1015-aws\t1\nii \tlinux-modules-6.8.0-1015-aws\t1\nii \tlinux-headers-6.8.0-1015-aws\t1\nii \tlinux-tools-6.8.0-1015-aws\t1\nii \tlinux-aws-headers-6.8.0-1015\t1\nii \tlinux-aws-tools-6.8.0-1015\t1\nii \tlinux-image-6.8.0-1016-aws\t1\nii \tlinux-modules-6.8.0-1016-aws\t1\nii \tlinux-headers-6.8.0-1016-aws\t1\nii \tlinux-aws-headers-6.8.0-1016\t1\n";

#[test]
fn test_apt_kernel_packages_for_aws_shared() {
    let linux = parse_linux_packages(APT_LINUX_AWS);
    assert_eq!(
        names(apt_kernel_packages_for(
            &linux,
            "6.8.0-1015-aws",
            &["6.8.0-1015-aws"]
        )),
        vec![
            "linux-image-6.8.0-1015-aws",
            "linux-modules-6.8.0-1015-aws",
            "linux-headers-6.8.0-1015-aws",
            "linux-tools-6.8.0-1015-aws",
            "linux-aws-headers-6.8.0-1015",
            "linux-aws-tools-6.8.0-1015",
        ]
    );
    let with_second = format!("{APT_LINUX_AWS}ii \tlinux-image-6.8.0-1015-aws-64k\t1\n");
    let linux = parse_linux_packages(&with_second);
    assert_eq!(
        names(apt_kernel_packages_for(
            &linux,
            "6.8.0-1015-aws",
            &["6.8.0-1015-aws"]
        )),
        vec![
            "linux-image-6.8.0-1015-aws",
            "linux-modules-6.8.0-1015-aws",
            "linux-headers-6.8.0-1015-aws",
            "linux-tools-6.8.0-1015-aws",
        ]
    );
    let k = parse_apt_kernels(&parse_linux_packages(APT_LINUX_AWS));
    assert_eq!(k[0], ("6.8.0-1015-aws".to_string(), Some(6 * 1024), false));
    assert_eq!(k[1], ("6.8.0-1016-aws".to_string(), Some(4 * 1024), false));
}

const APT_LINUX_HWE: &str = "ii \tlinux-image-6.8.0-45-generic\t1\nii \tlinux-headers-6.8.0-45-generic\t1\nii \tlinux-image-6.8.0-45-lowlatency\t1\nii \tlinux-hwe-6.8-headers-6.8.0-45\t1\nii \tlinux-hwe-6.8-tools-6.8.0-45\t1\nii \tlinux-hwe-6.8-tools-common\t1\n";

#[test]
fn test_apt_kernel_packages_for_hwe_shared() {
    let linux = parse_linux_packages(APT_LINUX_HWE);
    assert_eq!(
        names(apt_kernel_packages_for(
            &linux,
            "6.8.0-45-generic",
            &["6.8.0-45-generic"]
        )),
        vec![
            "linux-image-6.8.0-45-generic",
            "linux-headers-6.8.0-45-generic"
        ]
    );
    let removing = ["6.8.0-45-generic", "6.8.0-45-lowlatency"];
    assert_eq!(
        names(apt_kernel_packages_for(
            &linux,
            "6.8.0-45-lowlatency",
            &removing
        )),
        vec![
            "linux-image-6.8.0-45-lowlatency",
            "linux-hwe-6.8-headers-6.8.0-45",
            "linux-hwe-6.8-tools-6.8.0-45",
        ]
    );
}

#[test]
fn test_parse_autoremove_sim_excludes_shared_kernel_packages() {
    let sim = "Remv linux-aws-headers-6.8.0-1015 [6.8.0-1015.16]\nRemv linux-hwe-6.8-tools-6.8.0-45 [6.8.0-45.45]\nRemv linux-hwe-6.8-tools-common [6.8.0-45.45]\nRemv libfoo1 [1.0]\n";
    let names: Vec<String> = parse_autoremove_sim(sim)
        .into_iter()
        .map(|i| i.name)
        .collect();
    assert_eq!(names, vec!["linux-hwe-6.8-tools-common", "libfoo1"]);
}

#[test]
fn apt_test_parse_remove_preview() {
    let sim = "NOTE: This is only a simulation!\nRemv linux-image-6.8.0-45-generic [6.8.0-45.45]\nRemv linux-generic [6.8.0.45.45]\nRemv libbaz1:i386 [1.0]\n";
    let requested = vec![
        "libbaz1:i386".to_string(),
        "linux-image-6.8.0-45-generic".to_string(),
    ];
    assert_eq!(
        extra_removals(parse_remove_preview(sim), &requested, SourceType::Apt).unwrap(),
        vec!["linux-generic"]
    );
    assert!(parse_remove_preview("").is_empty());
}
