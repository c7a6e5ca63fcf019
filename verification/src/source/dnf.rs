//! Reading `dnf5` and `rpm` output: search results, upgrades, installed packages,
//! repositories, unneeded packages, kernels, removal previews and OpenPGP key prompts.
use vstd::prelude::*;

use crate::package::{
    item_views, known_arches_spec, lemma_item_views_push, lemma_package_views_push,
    lemma_string_views_push, lemma_update_views_push, package_views, str_list_has, str_views,
    string_views, update_views, CleanupItem, CleanupItemView, CleanupKind, Package,
    PackageUpdate, PackageUpdateView, PackageView, SourceType,
};
use crate::error::PikeError;
use crate::package::{lemma_repository_views_push, repository_views, Repository, RepositoryView};
use crate::source::{key_views, PendingGpgKey, PendingGpgKeyView};
use crate::text::{
    find, find_char, find_ch, find_str, lemma_find_char, lemma_find_from_range, rfind,
    rfind_char, lemma_rfind_before_range, starts_with, has_prefix, trim_end, trim_end_chars,
    chars_of, copy_range, eq_str, filter_map, lines, lines_of, parse_u64, parse_u64_chars,
    push_all, push_str, rsplit_once_ch, rsplit_once_char, split, split_ch, split_once_ch,
    split_once_char, split_ws, split_ws_chars, string_of, trim, trim_chars, views,
};

verus! {

/// The package names rpm installs once per kernel version.
pub open spec fn kernel_package_names() -> Seq<Seq<char>> {
    seq![
        "kernel"@,
        "kernel-core"@,
        "kernel-modules"@,
        "kernel-modules-core"@,
        "kernel-modules-extra"@,
        "kernel-modules-internal"@,
        "kernel-devel"@,
    ]
}

pub fn kernel_package_list() -> (r: Vec<&'static str>)
    ensures
        str_views(r@) == kernel_package_names(),
{
    let r = vec![
        "kernel",
        "kernel-core",
        "kernel-modules",
        "kernel-modules-core",
        "kernel-modules-extra",
        "kernel-modules-internal",
        "kernel-devel",
    ];
    proof {
        assert(str_views(r@) =~= kernel_package_names());
    }
    r
}

/// `name.arch`, the key dnf reports versions by.
pub open spec fn version_key_spec(name: Seq<char>, arch: Option<Seq<char>>) -> Seq<char> {
    match arch {
        Some(a) => name + "."@ + a,
        None => name,
    }
}

pub fn version_key(name: &str, arch: Option<&str>) -> (r: String)
    ensures
        r@ == version_key_spec(
            name@,
            match arch {
                Some(a) => Some(a@),
                None => None,
            },
        ),
{
    let mut v = chars_of(name);
    match arch {
        Some(a) => {
            push_str(&mut v, ".");
            push_str(&mut v, a);
        },
        None => {},
    }
    string_of(&v)
}

/// `name.arch` split at its last dot, when the arch is a known dnf arch or `src`.
pub open spec fn name_arch_spec(name_arch: Seq<char>) -> Option<(Seq<char>, Seq<char>)> {
    match rsplit_once_char(name_arch, '.') {
        Some((name, arch)) => if arch != "src"@ && !known_arches_spec(SourceType::Dnf).contains(
            arch,
        ) {
            None
        } else {
            Some((name, arch))
        },
        None => None,
    }
}

pub fn extract_package_name_arch(name_arch: &[char]) -> (r: Option<(String, String)>)
    ensures
        match r {
            Some((n, a)) => name_arch_spec(name_arch@) == Some((n@, a@)),
            None => name_arch_spec(name_arch@) is None,
        },
{
    match rsplit_once_ch(name_arch, '.') {
        Some((name, arch)) => {
            let known = SourceType::Dnf.known_arches();
            if !eq_str(&arch, "src") && !str_list_has(known.as_slice(), &arch) {
                None
            } else {
                Some((string_of(&name), string_of(&arch)))
            }
        },
        None => None,
    }
}

// ---------------------------------------------------------------------------
// `dnf5 search`.
// ---------------------------------------------------------------------------

/// ` name.arch\tsummary`; header lines have no known arch and are skipped.
pub open spec fn search_line(l: Seq<char>) -> Option<PackageView> {
    match split_once_char(trim(l), '\t') {
        Some((name_arch, description)) => match name_arch_spec(name_arch) {
            Some((name, arch)) => Some(
                PackageView {
                    name,
                    display_name: None,
                    version: Seq::<char>::empty(),
                    source: SourceType::Dnf,
                    arch: Some(arch),
                    description: Some(trim(description)),
                },
            ),
            None => None,
        },
        None => None,
    }
}

pub open spec fn search_lines(ls: Seq<Seq<char>>) -> Seq<PackageView> {
    filter_map(ls, |l: Seq<char>| search_line(l))
}

/// No known dnf arch holds a dot or a tab.
proof fn lemma_dnf_arch_plain(a: Seq<char>)
    requires
        known_arches_spec(SourceType::Dnf).contains(a),
    ensures
        forall|j: int| 0 <= j < a.len() ==> a[j] != '.' && a[j] != '\t',
{
    reveal_strlit("x86_64");
    reveal_strlit("aarch64");
    reveal_strlit("i686");
    reveal_strlit("noarch");
    reveal_strlit("armv7hl");
    reveal_strlit("ppc64le");
    reveal_strlit("s390x");
    let ks = known_arches_spec(SourceType::Dnf);
    let k = choose|k: int| 0 <= k < ks.len() && ks[k] == a;
    assert(0 <= k < 7);
}

/// `name.arch` splits at the dot before a known dnf arch.
proof fn lemma_name_arch_known(n: Seq<char>, a: Seq<char>)
    requires
        known_arches_spec(SourceType::Dnf).contains(a),
    ensures
        name_arch_spec(n + "."@ + a) == Some((n, a)),
{
    reveal_strlit(".");
    lemma_dnf_arch_plain(a);
    let na = n + "."@ + a;
    let p0 = n.len() as int;
    assert(na[p0] == '.');
    assert forall|j: int| p0 < j < na.len() implies na[j] != '.' by {
        assert(na[j] == a[j - p0 - 1]);
    }
    lemma_rfind_before_range(na, '.', na.len() as int);
    assert(rfind_char(na, '.') == Some(p0));
    assert(na.take(p0) =~= n);
    assert(na.skip(p0 + 1) =~= a);
}

/// A search line ` name.arch<TAB>summary` with a known dnf arch, whatever the arch
/// (`noarch` too), gives the package `name` of that arch with the summary, trimmed.
pub proof fn lemma_search_line_known_arch(l: Seq<char>, n: Seq<char>, a: Seq<char>, d: Seq<char>)
    requires
        trim(l) == n + "."@ + a + "\t"@ + d,
        known_arches_spec(SourceType::Dnf).contains(a),
        forall|j: int| 0 <= j < n.len() ==> n[j] != '\t',
    ensures
        search_line(l) == Some(
            PackageView {
                name: n,
                display_name: None,
                version: Seq::<char>::empty(),
                source: SourceType::Dnf,
                arch: Some(a),
                description: Some(trim(d)),
            },
        ),
{
    reveal_strlit(".");
    reveal_strlit("\t");
    lemma_dnf_arch_plain(a);
    let na = n + "."@ + a;
    let t = trim(l);
    let q = na.len() as int;
    assert(t == na + "\t"@ + d);
    assert(t[q] == '\t');
    assert forall|j: int| 0 <= j < q implies t[j] != '\t' by {
        assert(t[j] == na[j]);
        if j > n.len() {
            assert(na[j] == a[j - n.len() - 1]);
        }
    }
    lemma_find_char(t, '\t');
    assert(find_char(t, '\t') == Some(q));
    assert(t.take(q) =~= na);
    assert(t.skip(q + 1) =~= d);
    assert(split_once_char(t, '\t') == Some((na, d)));
    lemma_name_arch_known(n, a);
}

/// Every search line ` name.arch<TAB>summary` with a known dnf arch yields its package
/// among the search results.
pub proof fn lemma_search_results_hold_known_arches(
    ls: Seq<Seq<char>>,
    i: int,
    n: Seq<char>,
    a: Seq<char>,
    d: Seq<char>,
)
    requires
        0 <= i < ls.len(),
        trim(ls[i]) == n + "."@ + a + "\t"@ + d,
        known_arches_spec(SourceType::Dnf).contains(a),
        forall|j: int| 0 <= j < n.len() ==> n[j] != '\t',
    ensures
        search_lines(ls).contains(
            PackageView {
                name: n,
                display_name: None,
                version: Seq::<char>::empty(),
                source: SourceType::Dnf,
                arch: Some(a),
                description: Some(trim(d)),
            },
        ),
{
    lemma_search_line_known_arch(ls[i], n, a, d);
    let f = |l: Seq<char>| search_line(l);
    assert(f(ls[i]) == search_line(ls[i]));
    crate::text::lemma_filter_map_contains(ls, f, i);
    assert(search_lines(ls) == filter_map(ls, f));
}

fn search_row(l: &[char]) -> (r: Option<Package>)
    ensures
        match r {
            Some(p) => search_line(l@) == Some(p@),
            None => search_line(l@) is None,
        },
{
    let t = trim_chars(l);
    match split_once_ch(&t, '\t') {
        Some((name_arch, description)) => match extract_package_name_arch(&name_arch) {
            Some((name, arch)) => {
                let e: Vec<char> = Vec::new();
                let d = trim_chars(&description);
                Some(
                    Package {
                        name,
                        display_name: None,
                        version: string_of(&e),
                        source: SourceType::Dnf,
                        arch: Some(arch),
                        description: Some(string_of(&d)),
                    },
                )
            },
            None => None,
        },
        None => None,
    }
}

/// Search results, one ` name.arch\tsummary` line each.
pub fn parse_search_output(output: &str) -> (r: Vec<Package>)
    ensures
        package_views(r@) == search_lines(lines(output@)),
{
    let text = chars_of(output);
    let ls = lines_of(&text);
    let mut r: Vec<Package> = Vec::new();
    let mut i: usize = 0;
    proof {
        assert(views(ls@).take(0) =~= Seq::<Seq<char>>::empty());
        assert(package_views(r@) =~= Seq::<PackageView>::empty());
    }
    while i < ls.len()
        invariant
            0 <= i <= ls.len(),
            views(ls@) == lines(output@),
            package_views(r@) == search_lines(views(ls@).take(i as int)),
        decreases ls.len() - i,
    {
        proof {
            assert(views(ls@).take(i + 1).drop_last() =~= views(ls@).take(i as int));
            assert(views(ls@).take(i + 1).last() == ls@[i as int]@);
        }
        match search_row(&ls[i]) {
            Some(p) => {
                proof {
                    lemma_package_views_push(r@, p);
                }
                r.push(p);
            },
            None => {},
        }
        i = i + 1;
    }
    proof {
        assert(views(ls@).take(ls@.len() as int) =~= views(ls@));
    }
    r
}

// ---------------------------------------------------------------------------
// `dnf5 check-upgrade -q`.
// ---------------------------------------------------------------------------

/// ` name.arch  version  repository`.
pub open spec fn upgrade_line(l: Seq<char>) -> Option<PackageUpdateView> {
    let t = trim(l);
    let parts = split_ws(t);
    if t.len() == 0 || parts.len() < 2 {
        None
    } else {
        match name_arch_spec(parts[0]) {
            Some((name, arch)) => Some(
                PackageUpdateView {
                    name,
                    source: SourceType::Dnf,
                    arch: Some(arch),
                    installed_version: Seq::<char>::empty(),
                    available_version: parts[1],
                },
            ),
            None => None,
        }
    }
}

pub open spec fn upgrade_lines(ls: Seq<Seq<char>>) -> Seq<PackageUpdateView> {
    filter_map(ls, |l: Seq<char>| upgrade_line(l))
}

fn upgrade_row(l: &[char]) -> (r: Option<PackageUpdate>)
    ensures
        match r {
            Some(u) => upgrade_line(l@) == Some(u@),
            None => upgrade_line(l@) is None,
        },
{
    let t = trim_chars(l);
    let parts = split_ws_chars(&t);
    if t.len() == 0 || parts.len() < 2 {
        return None;
    }
    proof {
        assert(views(parts@)[0] == parts@[0]@ && views(parts@)[1] == parts@[1]@);
    }
    match extract_package_name_arch(&parts[0]) {
        Some((name, arch)) => {
            let e: Vec<char> = Vec::new();
            Some(
                PackageUpdate {
                    name,
                    source: SourceType::Dnf,
                    arch: Some(arch),
                    installed_version: string_of(&e),
                    available_version: string_of(&parts[1]),
                },
            )
        },
        None => None,
    }
}

/// Available upgrades, one whitespace-separated line each.
pub fn parse_check_upgrade_output(output: &str) -> (r: Vec<PackageUpdate>)
    ensures
        update_views(r@) == upgrade_lines(lines(output@)),
{
    let text = chars_of(output);
    let ls = lines_of(&text);
    let mut r: Vec<PackageUpdate> = Vec::new();
    let mut i: usize = 0;
    proof {
        assert(views(ls@).take(0) =~= Seq::<Seq<char>>::empty());
        assert(update_views(r@) =~= Seq::<PackageUpdateView>::empty());
    }
    while i < ls.len()
        invariant
            0 <= i <= ls.len(),
            views(ls@) == lines(output@),
            update_views(r@) == upgrade_lines(views(ls@).take(i as int)),
        decreases ls.len() - i,
    {
        proof {
            assert(views(ls@).take(i + 1).drop_last() =~= views(ls@).take(i as int));
            assert(views(ls@).take(i + 1).last() == ls@[i as int]@);
        }
        match upgrade_row(&ls[i]) {
            Some(u) => {
                proof {
                    lemma_update_views_push(r@, u);
                }
                r.push(u);
            },
            None => {},
        }
        i = i + 1;
    }
    proof {
        assert(views(ls@).take(ls@.len() as int) =~= views(ls@));
    }
    r
}

// ---------------------------------------------------------------------------
// `dnf5 repoquery --installed --queryformat=%{name}.%{arch}\t%{version}-%{release}\t%{summary}\n`.
// ---------------------------------------------------------------------------

pub open spec fn installed_line(l: Seq<char>) -> Option<PackageView> {
    let f = split(l, '\t');
    if f.len() < 2 {
        None
    } else {
        match name_arch_spec(f[0]) {
            Some((name, arch)) => Some(
                PackageView {
                    name,
                    display_name: None,
                    version: f[1],
                    source: SourceType::Dnf,
                    arch: Some(arch),
                    description: if f.len() > 2 && trim(f[2]).len() > 0 {
                        Some(trim(f[2]))
                    } else {
                        None
                    },
                },
            ),
            None => None,
        }
    }
}

pub open spec fn installed_lines(ls: Seq<Seq<char>>) -> Seq<PackageView> {
    filter_map(ls, |l: Seq<char>| installed_line(l))
}

fn installed_row(l: &[char]) -> (r: Option<Package>)
    ensures
        match r {
            Some(p) => installed_line(l@) == Some(p@),
            None => installed_line(l@) is None,
        },
{
    let f = split_ch(l, '\t');
    if f.len() < 2 {
        return None;
    }
    proof {
        assert(views(f@)[0] == f@[0]@ && views(f@)[1] == f@[1]@);
    }
    match extract_package_name_arch(&f[0]) {
        Some((name, arch)) => {
            let description = if f.len() > 2 {
                proof {
                    assert(views(f@)[2] == f@[2]@);
                }
                let t = trim_chars(&f[2]);
                if t.len() > 0 {
                    Some(string_of(&t))
                } else {
                    None
                }
            } else {
                None
            };
            Some(
                Package {
                    name,
                    display_name: None,
                    version: string_of(&f[1]),
                    source: SourceType::Dnf,
                    arch: Some(arch),
                    description,
                },
            )
        },
        None => None,
    }
}

/// Installed packages, one tab-separated line each.
pub fn parse_list_installed_output(output: &str) -> (r: Vec<Package>)
    ensures
        package_views(r@) == installed_lines(lines(output@)),
{
    let text = chars_of(output);
    let ls = lines_of(&text);
    let mut r: Vec<Package> = Vec::new();
    let mut i: usize = 0;
    proof {
        assert(views(ls@).take(0) =~= Seq::<Seq<char>>::empty());
        assert(package_views(r@) =~= Seq::<PackageView>::empty());
    }
    while i < ls.len()
        invariant
            0 <= i <= ls.len(),
            views(ls@) == lines(output@),
            package_views(r@) == installed_lines(views(ls@).take(i as int)),
        decreases ls.len() - i,
    {
        proof {
            assert(views(ls@).take(i + 1).drop_last() =~= views(ls@).take(i as int));
            assert(views(ls@).take(i + 1).last() == ls@[i as int]@);
        }
        match installed_row(&ls[i]) {
            Some(p) => {
                proof {
                    lemma_package_views_push(r@, p);
                }
                r.push(p);
            },
            None => {},
        }
        i = i + 1;
    }
    proof {
        assert(views(ls@).take(ls@.len() as int) =~= views(ls@));
    }
    r
}

// ---------------------------------------------------------------------------
// Unneeded packages (`dnf5 repoquery --unneeded`).
// ---------------------------------------------------------------------------

/// `name.arch` without its arch.
pub open spec fn base_name(name: Seq<char>) -> Seq<char> {
    match rsplit_once_char(name, '.') {
        Some((n, _)) => n,
        None => name,
    }
}

/// `name.arch\tversion\tsize`; kernel packages are never orphans here: they are
/// handled per kernel version.
pub open spec fn unneeded_line(l: Seq<char>, installonly: Seq<Seq<char>>) -> Option<CleanupItemView> {
    let f = split(l, '\t');
    if f.len() < 2 {
        None
    } else {
        let name = trim(f[0]);
        let base = base_name(name);
        if name.len() == 0 || kernel_package_names().contains(base) || installonly.contains(base) {
            None
        } else {
            Some(
                CleanupItemView {
                    source: SourceType::Dnf,
                    kind: CleanupKind::Orphan,
                    name,
                    version: trim(f[1]),
                    size: if f.len() > 2 {
                        parse_u64(trim(f[2]))
                    } else {
                        None
                    },
                    arch: None,
                },
            )
        }
    }
}

pub open spec fn unneeded_lines(ls: Seq<Seq<char>>, installonly: Seq<Seq<char>>) -> Seq<CleanupItemView>
    decreases ls.len(),
{
    if ls.len() == 0 {
        Seq::<CleanupItemView>::empty()
    } else {
        let r = unneeded_lines(ls.drop_last(), installonly);
        match unneeded_line(ls.last(), installonly) {
            Some(x) => r.push(x),
            None => r,
        }
    }
}

fn unneeded_row(l: &[char], installonly: &[&str], kernels: &[&str]) -> (r: Option<CleanupItem>)
    requires
        str_views(kernels@) == kernel_package_names(),
    ensures
        match r {
            Some(x) => unneeded_line(l@, str_views(installonly@)) == Some(x@),
            None => unneeded_line(l@, str_views(installonly@)) is None,
        },
{
    let f = split_ch(l, '\t');
    if f.len() < 2 {
        return None;
    }
    proof {
        assert(views(f@)[0] == f@[0]@ && views(f@)[1] == f@[1]@);
    }
    let name = trim_chars(&f[0]);
    let base = match rsplit_once_ch(&name, '.') {
        Some((n, _)) => n,
        None => copy_range(&name, 0, name.len()),
    };
    proof {
        if rsplit_once_char(name@, '.') is None {
            assert(base@ =~= name@);
        }
    }
    if name.len() == 0 || str_list_has(kernels, &base) || str_list_has(installonly, &base) {
        return None;
    }
    let size = if f.len() > 2 {
        proof {
            assert(views(f@)[2] == f@[2]@);
        }
        let t = trim_chars(&f[2]);
        parse_u64_chars(&t)
    } else {
        None
    };
    let version = trim_chars(&f[1]);
    Some(
        CleanupItem {
            source: SourceType::Dnf,
            kind: CleanupKind::Orphan,
            name: string_of(&name),
            version: string_of(&version),
            size,
            arch: None,
        },
    )
}

/// Packages nothing needs any more, kernel and installonly packages left out.
pub fn parse_unneeded_output(output: &str, installonly: &[&str]) -> (r: Vec<CleanupItem>)
    ensures
        item_views(r@) == unneeded_lines(lines(output@), str_views(installonly@)),
{
    let kernels = kernel_package_list();
    let text = chars_of(output);
    let ls = lines_of(&text);
    let mut r: Vec<CleanupItem> = Vec::new();
    let mut i: usize = 0;
    proof {
        assert(views(ls@).take(0) =~= Seq::<Seq<char>>::empty());
        assert(item_views(r@) =~= Seq::<CleanupItemView>::empty());
    }
    while i < ls.len()
        invariant
            0 <= i <= ls.len(),
            views(ls@) == lines(output@),
            str_views(kernels@) == kernel_package_names(),
            item_views(r@) == unneeded_lines(views(ls@).take(i as int), str_views(installonly@)),
        decreases ls.len() - i,
    {
        proof {
            assert(views(ls@).take(i + 1).drop_last() =~= views(ls@).take(i as int));
            assert(views(ls@).take(i + 1).last() == ls@[i as int]@);
        }
        match unneeded_row(&ls[i], installonly, kernels.as_slice()) {
            Some(x) => {
                proof {
                    lemma_item_views_push(r@, x);
                }
                r.push(x);
            },
            None => {},
        }
        i = i + 1;
    }
    proof {
        assert(views(ls@).take(ls@.len() as int) =~= views(ls@));
    }
    r
}

/// `base-version.arch`, the full NEVRA, so that an installonly package loses only this
/// version; the name as it is when it has no arch or the version is unknown.
pub open spec fn orphan_nevra_spec(name: Seq<char>, version: Seq<char>) -> Seq<char> {
    match rsplit_once_char(name, '.') {
        Some((base, arch)) => if version.len() > 0 {
            base + "-"@ + version + "."@ + arch
        } else {
            name
        },
        None => name,
    }
}

pub fn orphan_nevra(name: &str, version: &str) -> (r: String)
    ensures
        r@ == orphan_nevra_spec(name@, version@),
{
    let n = chars_of(name);
    match rsplit_once_ch(&n, '.') {
        Some((base, arch)) => {
            let v = chars_of(version);
            if v.len() > 0 {
                let mut out = base;
                push_str(&mut out, "-");
                push_all(&mut out, &v);
                push_str(&mut out, ".");
                push_all(&mut out, &arch);
                string_of(&out)
            } else {
                string_of(&n)
            }
        },
        None => string_of(&n),
    }
}

// ---------------------------------------------------------------------------
// Kernels (`rpm -q --whatprovides installonlypkg(kernel) ...`).
// ---------------------------------------------------------------------------

/// An installed kernel package: name, `version-release.arch`, size.
#[derive(Debug, PartialEq, Eq)]
pub struct KernelPackage {
    pub name: String,
    pub version: String,
    pub size: Option<u64>,
}

pub struct KernelPackageView {
    pub name: Seq<char>,
    pub version: Seq<char>,
    pub size: Option<u64>,
}

impl View for KernelPackage {
    type V = KernelPackageView;

    open spec fn view(&self) -> KernelPackageView {
        KernelPackageView { name: self.name@, version: self.version@, size: self.size }
    }
}

pub open spec fn kernel_package_views(s: Seq<KernelPackage>) -> Seq<KernelPackageView> {
    s.map_values(|p: KernelPackage| p@)
}

/// `name\tversion\tsize` (the size is what follows the second tab) of one of the
/// kernel package names; variants such as `kernel-debug-core` and messages are skipped.
pub open spec fn kernel_line(l: Seq<char>) -> Option<KernelPackageView> {
    match split_once_char(l, '\t') {
        None => None,
        Some((name, rest)) => {
            let (version, third) = match split_once_char(rest, '\t') {
                Some((v, t)) => (v, Some(t)),
                None => (rest, None),
            };
            if kernel_package_names().contains(name) {
                Some(
                    KernelPackageView {
                        name,
                        version,
                        size: match third {
                            Some(t) => parse_u64(trim(t)),
                            None => None,
                        },
                    },
                )
            } else {
                None
            }
        },
    }
}

pub open spec fn kernel_lines(ls: Seq<Seq<char>>) -> Seq<KernelPackageView> {
    filter_map(ls, |l: Seq<char>| kernel_line(l))
}

fn kernel_row(l: &[char], kernels: &[&str]) -> (r: Option<KernelPackage>)
    requires
        str_views(kernels@) == kernel_package_names(),
    ensures
        match r {
            Some(x) => kernel_line(l@) == Some(x@),
            None => kernel_line(l@) is None,
        },
{
    let (name, rest) = match split_once_ch(l, '\t') {
        Some(p) => p,
        None => return None,
    };
    let (version, third) = match split_once_ch(&rest, '\t') {
        Some((v, t)) => (v, Some(t)),
        None => (rest, None),
    };
    if !str_list_has(kernels, &name) {
        return None;
    }
    let size = match &third {
        Some(t) => {
            let tt = trim_chars(t);
            parse_u64_chars(&tt)
        },
        None => None,
    };
    Some(KernelPackage { name: string_of(&name), version: string_of(&version), size })
}

/// The installed kernel packages.
pub fn parse_kernel_packages(output: &str) -> (r: Vec<KernelPackage>)
    ensures
        kernel_package_views(r@) == kernel_lines(lines(output@)),
{
    let kernels = kernel_package_list();
    let text = chars_of(output);
    let ls = lines_of(&text);
    let mut r: Vec<KernelPackage> = Vec::new();
    let mut i: usize = 0;
    proof {
        assert(views(ls@).take(0) =~= Seq::<Seq<char>>::empty());
        assert(kernel_package_views(r@) =~= Seq::<KernelPackageView>::empty());
    }
    while i < ls.len()
        invariant
            0 <= i <= ls.len(),
            views(ls@) == lines(output@),
            str_views(kernels@) == kernel_package_names(),
            kernel_package_views(r@) == kernel_lines(views(ls@).take(i as int)),
        decreases ls.len() - i,
    {
        proof {
            assert(views(ls@).take(i + 1).drop_last() =~= views(ls@).take(i as int));
            assert(views(ls@).take(i + 1).last() == ls@[i as int]@);
        }
        match kernel_row(&ls[i], kernels.as_slice()) {
            Some(x) => {
                proof {
                    assert(kernel_package_views(r@.push(x)) =~= kernel_package_views(r@).push(x@));
                }
                r.push(x);
            },
            None => {},
        }
        i = i + 1;
    }
    proof {
        assert(views(ls@).take(ls@.len() as int) =~= views(ls@));
    }
    r
}

pub open spec fn installonly_line(l: Seq<char>) -> Option<Seq<char>> {
    match split_once_char(l, '\t') {
        Some((name, _)) => Some(name),
        None => None,
    }
}

pub open spec fn installonly_lines(ls: Seq<Seq<char>>) -> Seq<Seq<char>> {
    filter_map(ls, |l: Seq<char>| installonly_line(l))
}

/// The names of the installonly packages (the first column of the rpm query).
pub fn installonly_names(output: &str) -> (r: Vec<String>)
    ensures
        string_views(r@) == installonly_lines(lines(output@)),
{
    let text = chars_of(output);
    let ls = lines_of(&text);
    let mut r: Vec<String> = Vec::new();
    let mut i: usize = 0;
    proof {
        assert(views(ls@).take(0) =~= Seq::<Seq<char>>::empty());
        assert(string_views(r@) =~= Seq::<Seq<char>>::empty());
    }
    while i < ls.len()
        invariant
            0 <= i <= ls.len(),
            views(ls@) == lines(output@),
            string_views(r@) == installonly_lines(views(ls@).take(i as int)),
        decreases ls.len() - i,
    {
        proof {
            assert(views(ls@).take(i + 1).drop_last() =~= views(ls@).take(i as int));
            assert(views(ls@).take(i + 1).last() == ls@[i as int]@);
        }
        match split_once_ch(&ls[i], '\t') {
            Some((name, _)) => {
                let x = string_of(&name);
                proof {
                    lemma_string_views_push(r@, x);
                }
                r.push(x);
            },
            None => {},
        }
        i = i + 1;
    }
    proof {
        assert(views(ls@).take(ls@.len() as int) =~= views(ls@));
    }
    r
}

/// The sum of the known sizes of the packages of `version`, wrapping at 2^64; `None`
/// when none is known.
pub open spec fn version_size(rows: Seq<KernelPackageView>, version: Seq<char>) -> Option<u64>
    decreases rows.len(),
{
    if rows.len() == 0 {
        None
    } else {
        let acc = version_size(rows.drop_last(), version);
        let r = rows.last();
        if r.version != version {
            acc
        } else {
            match (acc, r.size) {
                (None, x) => x,
                (Some(a), Some(b)) => Some(((a + b) % 0x1_0000_0000_0000_0000) as u64),
                (Some(a), None) => Some(a),
            }
        }
    }
}

/// One entry per `kernel-core` package: its version and the total size of the
/// packages of that version.
pub open spec fn kernel_versions_spec(all: Seq<KernelPackageView>, rows: Seq<KernelPackageView>) -> Seq<
    (Seq<char>, Option<u64>),
>
    decreases rows.len(),
{
    if rows.len() == 0 {
        Seq::<(Seq<char>, Option<u64>)>::empty()
    } else {
        let r = kernel_versions_spec(all, rows.drop_last());
        let core = rows.last();
        if core.name == "kernel-core"@ {
            r.push((core.version, version_size(all, core.version)))
        } else {
            r
        }
    }
}

fn size_of_version(rows: &[KernelPackage], version: &[char]) -> (r: Option<u64>)
    ensures
        r == version_size(kernel_package_views(rows@), version@),
{
    let ghost rv = kernel_package_views(rows@);
    let mut acc: Option<u64> = None;
    let mut i: usize = 0;
    proof {
        assert(rv.take(0) =~= Seq::<KernelPackageView>::empty());
    }
    while i < rows.len()
        invariant
            0 <= i <= rows.len(),
            rv == kernel_package_views(rows@),
            acc == version_size(rv.take(i as int), version@),
        decreases rows.len() - i,
    {
        proof {
            assert(rv.take(i + 1).drop_last() =~= rv.take(i as int));
            assert(rv.take(i + 1).last() == rows@[i as int]@);
        }
        if crate::text::chars_eq(&chars_of(rows[i].version.as_str()), version) {
            acc = match (acc, rows[i].size) {
                (None, x) => x,
                (Some(a), Some(b)) => Some(a.wrapping_add(b)),
                (Some(a), None) => Some(a),
            };
        }
        i = i + 1;
    }
    proof {
        assert(rv.take(rv.len() as int) =~= rv);
    }
    acc
}

/// The installed kernels with the total size of their packages.
pub fn kernel_versions(rows: &[KernelPackage]) -> (r: Vec<(String, Option<u64>)>)
    ensures
        crate::cleanup::kernel_views(r@) == kernel_versions_spec(
            kernel_package_views(rows@),
            kernel_package_views(rows@),
        ),
{
    let ghost rv = kernel_package_views(rows@);
    let mut r: Vec<(String, Option<u64>)> = Vec::new();
    let mut i: usize = 0;
    proof {
        assert(rv.take(0) =~= Seq::<KernelPackageView>::empty());
        assert(crate::cleanup::kernel_views(r@) =~= Seq::<(Seq<char>, Option<u64>)>::empty());
    }
    while i < rows.len()
        invariant
            0 <= i <= rows.len(),
            rv == kernel_package_views(rows@),
            crate::cleanup::kernel_views(r@) == kernel_versions_spec(rv, rv.take(i as int)),
        decreases rows.len() - i,
    {
        proof {
            assert(rv.take(i + 1).drop_last() =~= rv.take(i as int));
            assert(rv.take(i + 1).last() == rows@[i as int]@);
        }
        if eq_str(&chars_of(rows[i].name.as_str()), "kernel-core") {
            let v = chars_of(rows[i].version.as_str());
            let size = size_of_version(rows, &v);
            let e = (rows[i].version.clone(), size);
            proof {
                assert(crate::cleanup::kernel_views(r@.push(e)) =~= crate::cleanup::kernel_views(
                    r@,
                ).push((e.0@, e.1)));
            }
            r.push(e);
        }
        i = i + 1;
    }
    proof {
        assert(rv.take(rv.len() as int) =~= rv);
    }
    r
}

/// `name-version` of each package of kernel `version`.
pub open spec fn kernel_packages_of(rows: Seq<KernelPackageView>, version: Seq<char>) -> Seq<Seq<char>>
    decreases rows.len(),
{
    if rows.len() == 0 {
        Seq::<Seq<char>>::empty()
    } else {
        let r = kernel_packages_of(rows.drop_last(), version);
        if rows.last().version == version {
            r.push(rows.last().name + "-"@ + rows.last().version)
        } else {
            r
        }
    }
}

/// The packages of kernel `version`, as `name-version`.
pub fn kernel_packages_for(rows: &[KernelPackage], version: &str) -> (r: Vec<String>)
    ensures
        string_views(r@) == kernel_packages_of(kernel_package_views(rows@), version@),
{
    let ghost rv = kernel_package_views(rows@);
    let vc = chars_of(version);
    let mut r: Vec<String> = Vec::new();
    let mut i: usize = 0;
    proof {
        assert(rv.take(0) =~= Seq::<KernelPackageView>::empty());
        assert(string_views(r@) =~= Seq::<Seq<char>>::empty());
    }
    while i < rows.len()
        invariant
            0 <= i <= rows.len(),
            rv == kernel_package_views(rows@),
            vc@ == version@,
            string_views(r@) == kernel_packages_of(rv.take(i as int), version@),
        decreases rows.len() - i,
    {
        proof {
            assert(rv.take(i + 1).drop_last() =~= rv.take(i as int));
            assert(rv.take(i + 1).last() == rows@[i as int]@);
        }
        if crate::text::chars_eq(&chars_of(rows[i].version.as_str()), &vc) {
            let mut n = chars_of(rows[i].name.as_str());
            push_str(&mut n, "-");
            push_str(&mut n, rows[i].version.as_str());
            let x = string_of(&n);
            proof {
                lemma_string_views_push(r@, x);
            }
            r.push(x);
        }
        i = i + 1;
    }
    proof {
        assert(rv.take(rv.len() as int) =~= rv);
    }
    r
}

// ---------------------------------------------------------------------------
// Removal previews (`dnf5 remove --assumeno`).
// ---------------------------------------------------------------------------

/// The headers whose package lines are removals.
pub open spec fn is_removal_header(h: Seq<char>) -> bool {
    h == "Removing:"@ || h == "Removing dependent packages:"@ || h
        == "Removing unused dependencies:"@
}

/// The state of reading a preview: whether the current section removes packages, and
/// the packages read so far as `name-version-release.arch`.
pub struct PreviewState {
    pub in_removal: bool,
    pub removed: Seq<Seq<char>>,
}

/// A line that does not start with a space may be a section header (it ends with
/// `:`); an indented line of a removal section is ` name arch [epoch:]version ...`.
pub open spec fn preview_step(st: PreviewState, line: Seq<char>) -> PreviewState {
    if !(line.len() > 0 && line[0] == ' ') {
        let header = trim_end(line);
        if header.len() > 0 && header.last() == ':' {
            PreviewState { in_removal: is_removal_header(header), removed: st.removed }
        } else {
            st
        }
    } else if !st.in_removal {
        st
    } else {
        let fields = split_ws(line);
        if fields.len() < 3 {
            st
        } else {
            let evr = fields[2];
            let vr = match split_once_char(evr, ':') {
                Some((_, vr)) => vr,
                None => evr,
            };
            PreviewState {
                in_removal: true,
                removed: st.removed.push(fields[0] + "-"@ + vr + "."@ + fields[1]),
            }
        }
    }
}

pub open spec fn preview_fold(ls: Seq<Seq<char>>) -> PreviewState
    decreases ls.len(),
{
    if ls.len() == 0 {
        PreviewState { in_removal: false, removed: Seq::<Seq<char>>::empty() }
    } else {
        preview_step(preview_fold(ls.drop_last()), ls.last())
    }
}

/// The packages a removal preview lists under its removal headers.
pub fn parse_remove_preview(output: &str) -> (r: Vec<String>)
    ensures
        string_views(r@) == preview_fold(lines(output@)).removed,
{
    let text = chars_of(output);
    let ls = lines_of(&text);
    let mut in_removal = false;
    let mut removed: Vec<String> = Vec::new();
    let mut i: usize = 0;
    proof {
        assert(views(ls@).take(0) =~= Seq::<Seq<char>>::empty());
        assert(string_views(removed@) =~= Seq::<Seq<char>>::empty());
    }
    while i < ls.len()
        invariant
            0 <= i <= ls.len(),
            views(ls@) == lines(output@),
            in_removal == preview_fold(views(ls@).take(i as int)).in_removal,
            string_views(removed@) == preview_fold(views(ls@).take(i as int)).removed,
        decreases ls.len() - i,
    {
        proof {
            assert(views(ls@).take(i + 1).drop_last() =~= views(ls@).take(i as int));
            assert(views(ls@).take(i + 1).last() == ls@[i as int]@);
        }
        let line = &ls[i];
        if !(line.len() > 0 && line[0] == ' ') {
            let header = trim_end_chars(line);
            if header.len() > 0 && header[header.len() - 1] == ':' {
                in_removal = eq_str(&header, "Removing:") || eq_str(&header, "Removing dependent packages:")
                    || eq_str(&header, "Removing unused dependencies:");
            }
        } else if in_removal {
            let fields = split_ws_chars(line);
            if fields.len() >= 3 {
                proof {
                    assert(views(fields@)[0] == fields@[0]@ && views(fields@)[1] == fields@[1]@);
                    assert(views(fields@)[2] == fields@[2]@);
                }
                let vr = match split_once_ch(&fields[2], ':') {
                    Some((_, vr)) => vr,
                    None => copy_range(&fields[2], 0, fields[2].len()),
                };
                proof {
                    if split_once_char(fields@[2]@, ':') is None {
                        assert(vr@ =~= fields@[2]@);
                    }
                }
                let mut n = copy_range(&fields[0], 0, fields[0].len());
                push_str(&mut n, "-");
                push_all(&mut n, &vr);
                push_str(&mut n, ".");
                push_all(&mut n, &fields[1]);
                proof {
                    assert(fields@[0]@.subrange(0, fields@[0]@.len() as int) =~= fields@[0]@);
                }
                let x = string_of(&n);
                proof {
                    lemma_string_views_push(removed@, x);
                }
                removed.push(x);
            }
        }
        i = i + 1;
    }
    proof {
        assert(views(ls@).take(ls@.len() as int) =~= views(ls@));
    }
    removed
}

// ---------------------------------------------------------------------------
// OpenPGP key prompts (what `dnf5 check-upgrade` writes to standard error).
// ---------------------------------------------------------------------------

/// `s` without the colons it ends with.
pub open spec fn strip_trailing_colons(s: Seq<char>) -> Seq<char>
    decreases s.len(),
{
    if s.len() > 0 && s.last() == ':' {
        strip_trailing_colons(s.drop_last())
    } else {
        s
    }
}

/// Key id, user id and keys read so far.
pub struct GpgState {
    pub key_id: Option<Seq<char>>,
    pub user_id: Option<Seq<char>>,
    pub keys: Seq<PendingGpgKeyView>,
}

/// `Importing OpenPGP key ID:` starts a key, `UserID : "..."` names its owner, and
/// `Fingerprint: ...` completes it (a fingerprint line always ends the key).
pub open spec fn gpg_step(st: GpgState, raw: Seq<char>) -> GpgState {
    let line = trim(raw);
    match find(line, "Importing OpenPGP key"@) {
        Some(idx) => GpgState {
            key_id: Some(trim(strip_trailing_colons(trim(line.skip(idx + 21))))),
            user_id: None,
            keys: st.keys,
        },
        None => if starts_with(line, "UserID"@) && find_char(line, '"') is Some && rfind_char(
            line,
            '"',
        ) is Some && rfind_char(line, '"')->0 > find_char(line, '"')->0 {
            GpgState {
                user_id: Some(
                    line.subrange(find_char(line, '"')->0 + 1, rfind_char(line, '"')->0),
                ),
                ..st
            }
        } else if starts_with(line, "Fingerprint"@) {
            match (st.key_id, split_once_char(line, ':')) {
                (Some(id), Some((_, fp))) => GpgState {
                    key_id: None,
                    user_id: None,
                    keys: st.keys.push(
                        PendingGpgKeyView {
                            key_id: id,
                            user_id: match st.user_id {
                                Some(u) => u,
                                None => Seq::<char>::empty(),
                            },
                            fingerprint: trim(fp),
                        },
                    ),
                },
                _ => GpgState { key_id: None, ..st },
            }
        } else {
            st
        },
    }
}

pub open spec fn gpg_fold(ls: Seq<Seq<char>>) -> GpgState
    decreases ls.len(),
{
    if ls.len() == 0 {
        GpgState { key_id: None, user_id: None, keys: Seq::<PendingGpgKeyView>::empty() }
    } else {
        gpg_step(gpg_fold(ls.drop_last()), ls.last())
    }
}

fn strip_trailing_colons_of(v: &[char]) -> (r: Vec<char>)
    ensures
        r@ == strip_trailing_colons(v@),
{
    let mut n = v.len();
    proof {
        assert(v@.take(v@.len() as int) =~= v@);
    }
    while n > 0 && v[n - 1] == ':'
        invariant
            n <= v.len(),
            strip_trailing_colons(v@.take(n as int)) == strip_trailing_colons(v@),
        decreases n,
    {
        proof {
            assert(v@.take(n as int).drop_last() =~= v@.take(n - 1));
        }
        n = n - 1;
    }
    proof {
        assert(v@.take(v@.len() as int) =~= v@);
    }
    copy_range(v, 0, n)
}

fn opt_string(o: &Option<Vec<char>>) -> (r: String)
    ensures
        r@ == match o {
            Some(u) => u@,
            None => Seq::<char>::empty(),
        },
{
    match o {
        Some(u) => string_of(u),
        None => {
            let e: Vec<char> = Vec::new();
            string_of(&e)
        },
    }
}

/// The keys that a refresh asks to import.
pub fn parse_pending_gpg_keys(stderr: &str) -> (r: Vec<PendingGpgKey>)
    ensures
        key_views(r@) == gpg_fold(lines(stderr@)).keys,
{
    let text = chars_of(stderr);
    let ls = lines_of(&text);
    let mut key_id: Option<Vec<char>> = None;
    let mut user_id: Option<Vec<char>> = None;
    let mut keys: Vec<PendingGpgKey> = Vec::new();
    let mut i: usize = 0;
    proof {
        assert(views(ls@).take(0) =~= Seq::<Seq<char>>::empty());
        assert(key_views(keys@) =~= Seq::<PendingGpgKeyView>::empty());
        reveal_strlit("Importing OpenPGP key");
    }
    while i < ls.len()
        invariant
            0 <= i <= ls.len(),
            views(ls@) == lines(stderr@),
            "Importing OpenPGP key"@.len() == 21,
            match key_id {
                Some(k) => gpg_fold(views(ls@).take(i as int)).key_id == Some(k@),
                None => gpg_fold(views(ls@).take(i as int)).key_id is None,
            },
            match user_id {
                Some(u) => gpg_fold(views(ls@).take(i as int)).user_id == Some(u@),
                None => gpg_fold(views(ls@).take(i as int)).user_id is None,
            },
            key_views(keys@) == gpg_fold(views(ls@).take(i as int)).keys,
        decreases ls.len() - i,
    {
        proof {
            assert(views(ls@).take(i + 1).drop_last() =~= views(ls@).take(i as int));
            assert(views(ls@).take(i + 1).last() == ls@[i as int]@);
        }
        let line = trim_chars(&ls[i]);
        match find_str(&line, "Importing OpenPGP key") {
            Some(idx) => {
                proof {
                    lemma_find_from_range(line@, "Importing OpenPGP key"@, 0);
                    assert(idx + 21 <= line@.len());
                }
                assert(idx <= line.len() - 21);
                let start = idx + 21;
                let rest = copy_range(&line, start, line.len());
                proof {
                    assert(rest@ =~= line@.skip(idx + 21));
                }
                let t = trim_chars(&rest);
                let s2 = strip_trailing_colons_of(&t);
                key_id = Some(trim_chars(&s2));
                user_id = None;
            },
            None => {
                let q1 = find_ch(&line, '"');
                let q2 = rfind(&line, '"');
                let quoted = match (q1, q2) {
                    (Some(a), Some(b)) => b > a,
                    _ => false,
                };
                if has_prefix(&line, "UserID") && quoted {
                    let a = q1.unwrap();
                    let b = q2.unwrap();
                    proof {
                        lemma_find_char(line@, '"');
                        lemma_rfind_before_range(line@, '"', line@.len() as int);
                    }
                    user_id = Some(copy_range(&line, a + 1, b));
                } else if has_prefix(&line, "Fingerprint") {
                    let id = key_id;
                    key_id = None;
                    match (id, split_once_ch(&line, ':')) {
                        (Some(id), Some((_, fp))) => {
                            let f = trim_chars(&fp);
                            let k = PendingGpgKey {
                                key_id: string_of(&id),
                                user_id: opt_string(&user_id),
                                fingerprint: string_of(&f),
                            };
                            user_id = None;
                            proof {
                                assert(key_views(keys@.push(k)) =~= key_views(keys@).push(k@));
                            }
                            keys.push(k);
                        },
                        _ => {},
                    }
                }
            },
        }
        i = i + 1;
    }
    proof {
        assert(views(ls@).take(ls@.len() as int) =~= views(ls@));
    }
    keys
}

// ---------------------------------------------------------------------------
// Repositories (`dnf5 repo list --all --json`).
// ---------------------------------------------------------------------------

/// What the repository list gives of an entry: `id`, `name` (when they are strings)
/// and `is_enabled` (when it is a boolean).
pub type RepoEntry = (Option<String>, Option<String>, Option<bool>);

pub open spec fn opt_str_view(o: Option<String>) -> Option<Seq<char>> {
    match o {
        Some(s) => Some(s@),
        None => None,
    }
}

pub open spec fn entry_views(s: Seq<RepoEntry>) -> Seq<(Option<Seq<char>>, Option<Seq<char>>, Option<bool>)> {
    s.map_values(|e: RepoEntry| (opt_str_view(e.0), opt_str_view(e.1), e.2))
}

/// The entries of the JSON array `text`, or `None` when `text` is not a JSON array.
pub uninterp spec fn json_repo_entries(text: Seq<char>) -> Option<Seq<(Option<Seq<char>>, Option<Seq<char>>, Option<bool>)>>;

/// Reads the JSON array `text` with `serde_json::from_str` into values, and takes the
/// `id`, `name` and `is_enabled` fields of each (`Value::as_str`, `Value::as_bool`);
/// on an error, its message.
#[verifier::external_body]
fn read_repo_entries(text: &str) -> (r: Result<Vec<RepoEntry>, String>)
    ensures
        match r {
            Ok(v) => json_repo_entries(text@) == Some(entry_views(v@)),
            Err(_) => json_repo_entries(text@) is None,
        },
{
    match serde_json::from_str::<Vec<serde_json::Value>>(text) {
        Ok(values) => Ok(
            values.iter().map(
                |e| (e["id"].as_str().map(String::from), e["name"].as_str().map(String::from), e["is_enabled"].as_bool()),
            ).collect(),
        ),
        Err(e) => Err(e.to_string()),
    }
}

/// A repository per entry with an id that is not empty; a missing name is empty, a
/// missing `is_enabled` false.
pub open spec fn entry_repos(s: Seq<(Option<Seq<char>>, Option<Seq<char>>, Option<bool>)>) -> Seq<RepositoryView>
    decreases s.len(),
{
    if s.len() == 0 {
        Seq::<RepositoryView>::empty()
    } else {
        let r = entry_repos(s.drop_last());
        let (id, name, enabled) = s.last();
        let id = match id {
            Some(x) => x,
            None => Seq::<char>::empty(),
        };
        if id.len() == 0 {
            r
        } else {
            r.push(
                RepositoryView {
                    id,
                    name: match name {
                        Some(x) => x,
                        None => Seq::<char>::empty(),
                    },
                    source: SourceType::Dnf,
                    enabled: match enabled {
                        Some(b) => b,
                        None => false,
                    },
                    url: None,
                },
            )
        }
    }
}

/// The repositories of the entries of a repository list.
pub fn repos_from_entries(entries: Vec<RepoEntry>) -> (r: Vec<Repository>)
    ensures
        repository_views(r@) == entry_repos(entry_views(entries@)),
{
    let ghost ev = entry_views(entries@);
    let mut r: Vec<Repository> = Vec::new();
    let mut i: usize = 0;
    proof {
        assert(ev.take(0) =~= Seq::<(Option<Seq<char>>, Option<Seq<char>>, Option<bool>)>::empty());
        assert(repository_views(r@) =~= Seq::<RepositoryView>::empty());
    }
    while i < entries.len()
        invariant
            0 <= i <= entries.len(),
            ev == entry_views(entries@),
            repository_views(r@) == entry_repos(ev.take(i as int)),
        decreases entries.len() - i,
    {
        proof {
            assert(ev.take(i + 1).drop_last() =~= ev.take(i as int));
            assert(ev.take(i + 1).last() == ev[i as int]);
        }
        let e = &entries[i];
        let id: String = match &e.0 {
            Some(x) => x.clone(),
            None => String::new(),
        };
        if !id.as_str().is_empty() {
            let name: String = match &e.1 {
                Some(x) => x.clone(),
                None => String::new(),
            };
            let x = Repository {
                id,
                name,
                source: SourceType::Dnf,
                enabled: match e.2 {
                    Some(b) => b,
                    None => false,
                },
                url: None,
            };
            proof {
                lemma_repository_views_push(r@, x);
            }
            r.push(x);
        }
        i = i + 1;
    }
    proof {
        assert(ev.take(ev.len() as int) =~= ev);
    }
    r
}

/// The repositories of `dnf5 repo list --all --json`; output that is not a JSON array
/// is a parse error.
pub fn parse_repo_list_json(output: &str) -> (r: Result<Vec<Repository>, PikeError>)
    ensures
        match json_repo_entries(output@) {
            Some(es) => r matches Ok(v) && repository_views(v@) == entry_repos(es),
            None => r matches Err(PikeError::Parse { source_name, detail }) && source_name@
                == "dnf"@ && starts_with(detail@, "invalid JSON from dnf5 repo list: "@),
        },
{
    match read_repo_entries(output) {
        Ok(entries) => Ok(repos_from_entries(entries)),
        Err(msg) => {
            let mut d = chars_of("invalid JSON from dnf5 repo list: ");
            let ghost prefix = d@;
            push_str(&mut d, msg.as_str());
            proof {
                assert(d@.take(prefix.len() as int) =~= prefix);
            }
            let n = chars_of("dnf");
            Err(PikeError::Parse { source_name: string_of(&n), detail: string_of(&d) })
        },
    }
}

// ---------------------------------------------------------------------------
// What a cleanup removes.
// ---------------------------------------------------------------------------

pub open spec fn orphan_nevras(items: Seq<CleanupItemView>) -> Seq<Seq<char>> {
    items.map_values(|i: CleanupItemView| orphan_nevra_spec(i.name, i.version))
}

/// The packages of the kernels `versions`.
pub open spec fn kernels_packages(rows: Seq<KernelPackageView>, versions: Seq<Seq<char>>) -> Seq<
    Seq<char>,
>
    decreases versions.len(),
{
    if versions.len() == 0 {
        Seq::<Seq<char>>::empty()
    } else {
        kernels_packages(rows, versions.drop_last()) + kernel_packages_of(rows, versions.last())
    }
}

/// The packages to remove for the cleanup items of dnf, given the installed kernel
/// packages: the orphans by full NEVRA, and the packages of the old kernels that do
/// not belong to the running kernel; sorted, each once.
pub fn removal_packages(items: &[CleanupItem], rows: &[KernelPackage], running: Option<&str>) -> (r: Vec<
    String,
>)
    ensures
        crate::cleanup::strictly_sorted(string_views(r@)),
        string_views(r@).to_set() == orphan_nevras(
            crate::cleanup::items_of_kind(item_views(items@), CleanupKind::Orphan),
        ).to_set().union(
            crate::cleanup::kept_kernels(
                kernels_packages(
                    kernel_package_views(rows@),
                    crate::source::item_versions(
                        crate::cleanup::items_of_kind(item_views(items@), CleanupKind::OldKernel),
                    ),
                ),
                match running {
                    Some(s) => Some(s@),
                    None => None,
                },
            ).to_set(),
        ),
{
    let orphan_items = crate::cleanup::of_kind(items, CleanupKind::Orphan);
    let kernel_items = crate::cleanup::of_kind(items, CleanupKind::OldKernel);
    let mut orphans: Vec<String> = Vec::new();
    let mut i: usize = 0;
    while i < orphan_items.len()
        invariant
            0 <= i <= orphan_items.len(),
            string_views(orphans@) == orphan_nevras(item_views(orphan_items@)).take(i as int),
        decreases orphan_items.len() - i,
    {
        let x = orphan_nevra(orphan_items[i].name.as_str(), orphan_items[i].version.as_str());
        proof {
            lemma_string_views_push(orphans@, x);
            assert(orphan_nevras(item_views(orphan_items@)).take(i + 1) =~= orphan_nevras(
                item_views(orphan_items@),
            ).take(i as int).push(x@));
        }
        orphans.push(x);
        i = i + 1;
    }
    proof {
        assert(orphan_nevras(item_views(orphan_items@)).take(orphan_items@.len() as int)
            =~= orphan_nevras(item_views(orphan_items@)));
    }
    let ghost vs = crate::source::item_versions(item_views(kernel_items@));
    let mut kernel_pkgs: Vec<String> = Vec::new();
    let mut k: usize = 0;
    proof {
        assert(vs.take(0) =~= Seq::<Seq<char>>::empty());
        assert(string_views(kernel_pkgs@) =~= Seq::<Seq<char>>::empty());
    }
    while k < kernel_items.len()
        invariant
            0 <= k <= kernel_items.len(),
            vs == crate::source::item_versions(item_views(kernel_items@)),
            string_views(kernel_pkgs@) == kernels_packages(kernel_package_views(rows@), vs.take(k as int)),
        decreases kernel_items.len() - k,
    {
        let pkgs = kernel_packages_for(rows, kernel_items[k].version.as_str());
        let ghost before = string_views(kernel_pkgs@);
        proof {
            assert(vs.take(k + 1).drop_last() =~= vs.take(k as int));
            assert(vs.take(k + 1).last() == kernel_items@[k as int].version@);
        }
        let mut m: usize = 0;
        while m < pkgs.len()
            invariant
                0 <= m <= pkgs.len(),
                string_views(kernel_pkgs@) == before + string_views(pkgs@).take(m as int),
            decreases pkgs.len() - m,
        {
            let x = pkgs[m].clone();
            proof {
                lemma_string_views_push(kernel_pkgs@, x);
                assert(string_views(pkgs@).take(m + 1) =~= string_views(pkgs@).take(m as int).push(
                    x@,
                ));
                assert(before + string_views(pkgs@).take(m + 1) =~= (before + string_views(
                    pkgs@,
                ).take(m as int)).push(x@));
            }
            kernel_pkgs.push(x);
            m = m + 1;
        }
        proof {
            assert(string_views(pkgs@).take(pkgs@.len() as int) =~= string_views(pkgs@));
        }
        k = k + 1;
    }
    proof {
        assert(vs.take(kernel_items@.len() as int) =~= vs);
    }
    crate::cleanup::removal_list(orphans, kernel_pkgs, running)
}

/// Sets the version of each search result that `versions` lists under its
/// `name.arch`.
pub open spec fn with_latest(p: PackageView, versions: Map<Seq<char>, Seq<char>>) -> PackageView {
    let key = version_key_spec(p.name, p.arch);
    if versions.contains_key(key) {
        PackageView { version: versions[key], ..p }
    } else {
        p
    }
}

/// Fills in the latest versions of search results from a table of versions by
/// `name.arch`.
pub fn apply_latest_versions(packages: Vec<Package>, versions: &Vec<(String, String)>) -> (r: Vec<Package>)
    requires
        crate::assoc::keys_distinct(crate::assoc::pair_views(versions@)),
    ensures
        r@.len() == packages@.len(),
        forall|i: int|
            0 <= i < r@.len() ==> #[trigger] r@[i]@ == with_latest(
                packages@[i]@,
                crate::assoc::pairs_map(crate::source::string_pair_views(versions@)),
            ),
{
    let mut r: Vec<Package> = Vec::new();
    let mut i: usize = 0;
    while i < packages.len()
        invariant
            0 <= i <= packages.len(),
            crate::assoc::keys_distinct(crate::assoc::pair_views(versions@)),
            r@.len() == i,
            forall|j: int|
                0 <= j < i ==> #[trigger] r@[j]@ == with_latest(
                    packages@[j]@,
                    crate::assoc::pairs_map(crate::source::string_pair_views(versions@)),
                ),
        decreases packages.len() - i,
    {
        let p = &packages[i];
        let arch = match &p.arch {
            Some(a) => Some(a.as_str()),
            None => None,
        };
        let key = version_key(p.name.as_str(), arch);
        let kc = chars_of(key.as_str());
        let version = match crate::source::lookup(versions, &kc) {
            Some(v) => v,
            None => p.version.clone(),
        };
        let x = Package {
            name: p.name.clone(),
            display_name: crate::package::clone_opt(&p.display_name),
            version,
            source: p.source,
            arch: crate::package::clone_opt(&p.arch),
            description: crate::package::clone_opt(&p.description),
        };
        r.push(x);
        i = i + 1;
    }
    r
}

} // verus!
