//! The package model: sources, packages, repositories, updates and cleanup items,
//! with their mathematical views.
use vstd::prelude::*;

use crate::text::{chars_of, eq_str, push_str, string_of};

verus! {

#[derive(Debug, Clone, Copy, Hash, PartialEq, Eq, Structural, PartialOrd, Ord)]
pub enum SourceType {
    Dnf,
    Flatpak,
    Apt,
}

/// Position of a source in the fixed source order (dnf, flatpak, apt), which is also
/// the order in which results of several sources are listed.
pub open spec fn source_rank(s: SourceType) -> int {
    match s {
        SourceType::Dnf => 0,
        SourceType::Flatpak => 1,
        SourceType::Apt => 2,
    }
}

pub open spec fn binary_name_spec(s: SourceType) -> Seq<char> {
    match s {
        SourceType::Dnf => "dnf5"@,
        SourceType::Flatpak => "flatpak"@,
        SourceType::Apt => "apt-get"@,
    }
}

pub open spec fn display_name_spec(s: SourceType) -> Seq<char> {
    match s {
        SourceType::Dnf => "dnf"@,
        SourceType::Flatpak => "flatpak"@,
        SourceType::Apt => "apt"@,
    }
}

pub open spec fn known_arches_spec(s: SourceType) -> Seq<Seq<char>> {
    match s {
        SourceType::Dnf => seq![
            "x86_64"@,
            "aarch64"@,
            "i686"@,
            "noarch"@,
            "armv7hl"@,
            "ppc64le"@,
            "s390x"@,
        ],
        SourceType::Apt => seq!["amd64"@, "arm64"@, "armhf"@, "i386"@, "all"@],
        SourceType::Flatpak => Seq::<Seq<char>>::empty(),
    }
}

/// Architecture names of a source for a host architecture name as Rust spells it.
pub open spec fn default_arches_spec(s: SourceType, host: Seq<char>) -> Seq<Seq<char>> {
    match s {
        SourceType::Dnf => {
            let mapped = if host == "x86"@ {
                "i686"@
            } else if host == "arm"@ {
                "armv7hl"@
            } else {
                host
            };
            seq![mapped, "noarch"@]
        },
        SourceType::Apt => {
            let mapped = if host == "x86_64"@ {
                "amd64"@
            } else if host == "aarch64"@ {
                "arm64"@
            } else if host == "arm"@ {
                "armhf"@
            } else if host == "x86"@ {
                "i386"@
            } else {
                host
            };
            seq![mapped, "all"@]
        },
        SourceType::Flatpak => Seq::<Seq<char>>::empty(),
    }
}

pub open spec fn str_views(s: Seq<&str>) -> Seq<Seq<char>> {
    s.map_values(|x: &str| x@)
}

/// Whether `x` is one of the strings of `v`.
pub fn str_list_has(v: &[&str], x: &[char]) -> (r: bool)
    ensures
        r == str_views(v@).contains(x@),
{
    let mut i: usize = 0;
    while i < v.len()
        invariant
            0 <= i <= v.len(),
            forall|k: int| 0 <= k < i ==> v@[k]@ != x@,
        decreases v.len() - i,
    {
        if crate::text::chars_eq(&chars_of(v[i]), x) {
            proof {
                assert(str_views(v@)[i as int] == x@);
            }
            return true;
        }
        i = i + 1;
    }
    proof {
        if str_views(v@).contains(x@) {
            let k = choose|k: int| 0 <= k < v@.len() && str_views(v@)[k] == x@;
            assert(v@[k]@ == x@);
        }
    }
    false
}

pub open spec fn string_views(s: Seq<String>) -> Seq<Seq<char>> {
    s.map_values(|x: String| x@)
}

pub open spec fn opt_view(o: Option<String>) -> Option<Seq<char>> {
    match o {
        Some(s) => Some(s@),
        None => None,
    }
}

pub fn clone_opt(o: &Option<String>) -> (r: Option<String>)
    ensures
        r == *o,
{
    match o {
        Some(s) => Some(s.clone()),
        None => None,
    }
}

pub fn clone_strings(v: &Vec<String>) -> (r: Vec<String>)
    ensures
        r@ == v@,
{
    let mut r: Vec<String> = Vec::new();
    let mut i: usize = 0;
    while i < v.len()
        invariant
            0 <= i <= v.len(),
            r@ == v@.take(i as int),
        decreases v.len() - i,
    {
        r.push(v[i].clone());
        proof {
            assert(v@.take(i + 1) =~= v@.take(i as int).push(v@[i as int]));
        }
        i = i + 1;
    }
    proof {
        assert(v@.take(v@.len() as int) =~= v@);
    }
    r
}

impl SourceType {
    pub const ALL: [SourceType; 3] = [SourceType::Dnf, SourceType::Flatpak, SourceType::Apt];

    /// Position in the source order; sorting by it lists dnf, flatpak, apt.
    pub fn rank(self) -> (r: u8)
        ensures
            r as int == source_rank(self),
    {
        match self {
            SourceType::Dnf => 0,
            SourceType::Flatpak => 1,
            SourceType::Apt => 2,
        }
    }

    pub fn binary_name(self) -> (r: &'static str)
        ensures
            r@ == binary_name_spec(self),
    {
        match self {
            SourceType::Dnf => "dnf5",
            SourceType::Flatpak => "flatpak",
            SourceType::Apt => "apt-get",
        }
    }

    pub fn display_name(self) -> (r: &'static str)
        ensures
            r@ == display_name_spec(self),
    {
        match self {
            SourceType::Dnf => "dnf",
            SourceType::Flatpak => "flatpak",
            SourceType::Apt => "apt",
        }
    }

    pub fn has_arch_filter(self) -> (r: bool)
        ensures
            r == (self != SourceType::Flatpak),
    {
        match self {
            SourceType::Dnf | SourceType::Apt => true,
            SourceType::Flatpak => false,
        }
    }

    pub fn known_arches(self) -> (r: Vec<&'static str>)
        ensures
            str_views(r@) == known_arches_spec(self),
    {
        let r = match self {
            SourceType::Dnf => vec![
                "x86_64",
                "aarch64",
                "i686",
                "noarch",
                "armv7hl",
                "ppc64le",
                "s390x",
            ],
            SourceType::Apt => vec!["amd64", "arm64", "armhf", "i386", "all"],
            SourceType::Flatpak => Vec::new(),
        };
        proof {
            assert(str_views(r@) =~= known_arches_spec(self));
        }
        r
    }

    /// The architectures a source shows by default on a host whose Rust architecture
    /// name is `host` (the host's own, mapped to the source's spelling, and the
    /// architecture-independent one).
    pub fn default_arches(self, host: &str) -> (r: Vec<String>)
        ensures
            string_views(r@) == default_arches_spec(self, host@),
    {
        let h = chars_of(host);
        let r = match self {
            SourceType::Dnf => {
                let mapped: String = if eq_str(&h, "x86") {
                    "i686".to_string()
                } else if eq_str(&h, "arm") {
                    "armv7hl".to_string()
                } else {
                    host.to_string()
                };
                vec![mapped, "noarch".to_string()]
            },
            SourceType::Apt => {
                let mapped: String = if eq_str(&h, "x86_64") {
                    "amd64".to_string()
                } else if eq_str(&h, "aarch64") {
                    "arm64".to_string()
                } else if eq_str(&h, "arm") {
                    "armhf".to_string()
                } else if eq_str(&h, "x86") {
                    "i386".to_string()
                } else {
                    host.to_string()
                };
                vec![mapped, "all".to_string()]
            },
            SourceType::Flatpak => Vec::new(),
        };
        proof {
            assert(string_views(r@) =~= default_arches_spec(self, host@));
        }
        r
    }

    /// The source whose display name is `s`, or the message that lists the known ones.
    pub fn parse_name(s: &str) -> (r: Result<SourceType, String>)
        ensures
            match r {
                Ok(st) => display_name_spec(st) == s@,
                Err(msg) => (forall|st: SourceType| display_name_spec(st) != s@) && msg@
                    == "unknown source '"@ + s@ + "', expected one of: dnf, flatpak, apt"@,
            },
    {
        let v = chars_of(s);
        if eq_str(&v, "dnf") {
            Ok(SourceType::Dnf)
        } else if eq_str(&v, "flatpak") {
            Ok(SourceType::Flatpak)
        } else if eq_str(&v, "apt") {
            Ok(SourceType::Apt)
        } else {
            let mut m: Vec<char> = Vec::new();
            push_str(&mut m, "unknown source '");
            push_str(&mut m, s);
            push_str(&mut m, "', expected one of: dnf, flatpak, apt");
            proof {
                assert forall|st: SourceType| display_name_spec(st) != s@ by {
                    match st {
                        SourceType::Dnf => {},
                        SourceType::Flatpak => {},
                        SourceType::Apt => {},
                    }
                }
            }
            Err(string_of(&m))
        }
    }
}

impl std::str::FromStr for SourceType {
    type Err = String;

    fn from_str(s: &str) -> (r: Result<Self, Self::Err>)
        ensures
            match r {
                Ok(st) => display_name_spec(st) == s@,
                Err(msg) => (forall|st: SourceType| display_name_spec(st) != s@) && msg@
                    == "unknown source '"@ + s@ + "', expected one of: dnf, flatpak, apt"@,
            },
    {
        SourceType::parse_name(s)
    }
}

#[derive(Debug, Clone, Copy, PartialEq, Eq, Structural)]
pub enum RepoMethod {
    RepoFile,
    Copr,
    BaseUrl,
    RpmPackage,
    RemoteAdd,
    Ppa,
}

pub open spec fn methods_for_spec(source: SourceType) -> Seq<RepoMethod> {
    match source {
        SourceType::Dnf => seq![
            RepoMethod::RepoFile,
            RepoMethod::Copr,
            RepoMethod::BaseUrl,
            RepoMethod::RpmPackage,
        ],
        SourceType::Apt => seq![RepoMethod::Ppa, RepoMethod::BaseUrl],
        SourceType::Flatpak => seq![RepoMethod::RemoteAdd],
    }
}

pub open spec fn method_display_spec(m: RepoMethod) -> Seq<char> {
    match m {
        RepoMethod::RepoFile => ".repo file URL"@,
        RepoMethod::Copr => "COPR (owner/project)"@,
        RepoMethod::BaseUrl => "Base URL"@,
        RepoMethod::RpmPackage => "RPM package URL"@,
        RepoMethod::RemoteAdd => "Flatpak remote"@,
        RepoMethod::Ppa => "PPA (user/ppa-name)"@,
    }
}

pub open spec fn has_repo_id_spec(m: RepoMethod) -> bool {
    m == RepoMethod::RepoFile || m == RepoMethod::BaseUrl
}

pub open spec fn needs_name_spec(m: RepoMethod) -> bool {
    m == RepoMethod::RemoteAdd
}

impl RepoMethod {
    pub fn methods_for(source: SourceType) -> (r: Vec<RepoMethod>)
        ensures
            r@ == methods_for_spec(source),
    {
        let r = match source {
            SourceType::Dnf => vec![
                RepoMethod::RepoFile,
                RepoMethod::Copr,
                RepoMethod::BaseUrl,
                RepoMethod::RpmPackage,
            ],
            SourceType::Apt => vec![RepoMethod::Ppa, RepoMethod::BaseUrl],
            SourceType::Flatpak => vec![RepoMethod::RemoteAdd],
        };
        proof {
            assert(r@ =~= methods_for_spec(source));
        }
        r
    }

    pub fn display_name(self) -> (r: &'static str)
        ensures
            r@ == method_display_spec(self),
    {
        match self {
            RepoMethod::RepoFile => ".repo file URL",
            RepoMethod::Copr => "COPR (owner/project)",
            RepoMethod::BaseUrl => "Base URL",
            RepoMethod::RpmPackage => "RPM package URL",
            RepoMethod::RemoteAdd => "Flatpak remote",
            RepoMethod::Ppa => "PPA (user/ppa-name)",
        }
    }

    pub fn has_repo_id(self) -> (r: bool)
        ensures
            r == has_repo_id_spec(self),
    {
        matches!(self, RepoMethod::RepoFile | RepoMethod::BaseUrl)
    }

    pub fn has_display_name(self) -> (r: bool)
        ensures
            r == has_repo_id_spec(self),
    {
        matches!(self, RepoMethod::RepoFile | RepoMethod::BaseUrl)
    }

    pub fn needs_name(self) -> (r: bool)
        ensures
            r == needs_name_spec(self),
    {
        matches!(self, RepoMethod::RemoteAdd)
    }

    pub fn has_gpgcheck(self) -> (r: bool)
        ensures
            r == has_repo_id_spec(self),
    {
        matches!(self, RepoMethod::RepoFile | RepoMethod::BaseUrl)
    }

    pub fn url_label(self) -> (r: &'static str)
        ensures
            r@ == (match self {
                RepoMethod::Copr => "owner/project"@,
                RepoMethod::Ppa => "user/ppa-name"@,
                _ => "URL"@,
            }),
    {
        match self {
            RepoMethod::Copr => "owner/project",
            RepoMethod::Ppa => "user/ppa-name",
            _ => "URL",
        }
    }
}

#[derive(Debug)]
pub struct Package {
    pub name: String,
    pub display_name: Option<String>,
    pub version: String,
    pub source: SourceType,
    pub arch: Option<String>,
    pub description: Option<String>,
}

pub struct PackageView {
    pub name: Seq<char>,
    pub display_name: Option<Seq<char>>,
    pub version: Seq<char>,
    pub source: SourceType,
    pub arch: Option<Seq<char>>,
    pub description: Option<Seq<char>>,
}

impl View for Package {
    type V = PackageView;

    open spec fn view(&self) -> PackageView {
        PackageView {
            name: self.name@,
            display_name: opt_view(self.display_name),
            version: self.version@,
            source: self.source,
            arch: opt_view(self.arch),
            description: opt_view(self.description),
        }
    }
}

impl Clone for Package {
    fn clone(&self) -> (r: Self)
        ensures
            r == *self,
    {
        Package {
            name: self.name.clone(),
            display_name: clone_opt(&self.display_name),
            version: self.version.clone(),
            source: self.source,
            arch: clone_opt(&self.arch),
            description: clone_opt(&self.description),
        }
    }
}

pub open spec fn package_views(s: Seq<Package>) -> Seq<PackageView> {
    s.map_values(|p: Package| p@)
}

#[derive(Debug)]
pub struct Repository {
    pub id: String,
    pub name: String,
    pub source: SourceType,
    pub enabled: bool,
    pub url: Option<String>,
}

pub struct RepositoryView {
    pub id: Seq<char>,
    pub name: Seq<char>,
    pub source: SourceType,
    pub enabled: bool,
    pub url: Option<Seq<char>>,
}

impl View for Repository {
    type V = RepositoryView;

    open spec fn view(&self) -> RepositoryView {
        RepositoryView {
            id: self.id@,
            name: self.name@,
            source: self.source,
            enabled: self.enabled,
            url: opt_view(self.url),
        }
    }
}

impl Clone for Repository {
    fn clone(&self) -> (r: Self)
        ensures
            r == *self,
    {
        Repository {
            id: self.id.clone(),
            name: self.name.clone(),
            source: self.source,
            enabled: self.enabled,
            url: clone_opt(&self.url),
        }
    }
}

pub open spec fn repository_views(s: Seq<Repository>) -> Seq<RepositoryView> {
    s.map_values(|r: Repository| r@)
}

#[derive(Debug)]
pub struct PackageUpdate {
    pub name: String,
    pub source: SourceType,
    pub arch: Option<String>,
    pub installed_version: String,
    pub available_version: String,
}

pub struct PackageUpdateView {
    pub name: Seq<char>,
    pub source: SourceType,
    pub arch: Option<Seq<char>>,
    pub installed_version: Seq<char>,
    pub available_version: Seq<char>,
}

impl View for PackageUpdate {
    type V = PackageUpdateView;

    open spec fn view(&self) -> PackageUpdateView {
        PackageUpdateView {
            name: self.name@,
            source: self.source,
            arch: opt_view(self.arch),
            installed_version: self.installed_version@,
            available_version: self.available_version@,
        }
    }
}

impl Clone for PackageUpdate {
    fn clone(&self) -> (r: Self)
        ensures
            r == *self,
    {
        PackageUpdate {
            name: self.name.clone(),
            source: self.source,
            arch: clone_opt(&self.arch),
            installed_version: self.installed_version.clone(),
            available_version: self.available_version.clone(),
        }
    }
}

pub open spec fn update_views(s: Seq<PackageUpdate>) -> Seq<PackageUpdateView> {
    s.map_values(|u: PackageUpdate| u@)
}

/// Number of updates of a source.
pub open spec fn source_count(s: Seq<PackageUpdate>, st: SourceType) -> nat
    decreases s.len(),
{
    if s.len() == 0 {
        0
    } else {
        source_count(s.drop_last(), st) + if s.last().source == st {
            1nat
        } else {
            0nat
        }
    }
}

/// Every update belongs to one source: the counts of the sources add up to the
/// number of updates.
pub proof fn lemma_source_counts_total(s: Seq<PackageUpdate>)
    ensures
        source_count(s, SourceType::Dnf) + source_count(s, SourceType::Flatpak) + source_count(
            s,
            SourceType::Apt,
        ) == s.len(),
    decreases s.len(),
{
    if s.len() > 0 {
        lemma_source_counts_total(s.drop_last());
    }
}

/// No two sources share a display name, so reading a source back by its display
/// name gives the source.
pub proof fn lemma_display_names_distinct(a: SourceType, b: SourceType)
    ensures
        display_name_spec(a) == display_name_spec(b) ==> a == b,
{
    reveal_strlit("dnf");
    reveal_strlit("flatpak");
    reveal_strlit("apt");
    assert("dnf"@.len() == 3 && "flatpak"@.len() == 7 && "apt"@.len() == 3);
    assert("dnf"@[0] == 'd' && "apt"@[0] == 'a');
}

/// No source counts more updates than there are.
pub proof fn lemma_source_count_le(s: Seq<PackageUpdate>, st: SourceType)
    ensures
        source_count(s, st) <= s.len(),
    decreases s.len(),
{
    if s.len() > 0 {
        lemma_source_count_le(s.drop_last(), st);
    }
}

/// The per-source counts that a summary lists: one entry for each source with at
/// least one update, in source order.
pub open spec fn counts_spec(s: Seq<PackageUpdate>) -> Seq<(SourceType, usize)> {
    let all = seq![SourceType::Dnf, SourceType::Flatpak, SourceType::Apt];
    let with = |st: SourceType|
        if source_count(s, st) > 0 {
            seq![(st, source_count(s, st) as usize)]
        } else {
            Seq::<(SourceType, usize)>::empty()
        };
    with(all[0]) + with(all[1]) + with(all[2])
}

/// The count of the first entry for a source, zero where there is none.
pub open spec fn count_of(counts: Seq<(SourceType, usize)>, st: SourceType) -> usize
    decreases counts.len(),
{
    if counts.len() == 0 {
        0
    } else if counts[0].0 == st {
        counts[0].1
    } else {
        count_of(counts.skip(1), st)
    }
}

/// `chrono::Utc::now().to_rfc3339()`: the current time; nothing is stated of it.
#[verifier::external_body]
fn utc_now_rfc3339() -> String {
    chrono::Utc::now().to_rfc3339()
}

#[derive(Debug, Clone)]
pub struct StatusSummary {
    pub total: usize,
    pub counts: Vec<(SourceType, usize)>,
    pub updates: Vec<PackageUpdate>,
    pub checked_at: Option<String>,
}

impl StatusSummary {
    pub fn from_updates(updates: Vec<PackageUpdate>) -> (r: Self)
        ensures
            r.total == updates@.len(),
            r.updates@ == updates@,
            r.counts@ == counts_spec(updates@),
            r.checked_at is None,
    {
        let mut dnf: usize = 0;
        let mut flatpak: usize = 0;
        let mut apt: usize = 0;
        let mut i: usize = 0;
        while i < updates.len()
            invariant
                0 <= i <= updates.len(),
                dnf == source_count(updates@.take(i as int), SourceType::Dnf),
                flatpak == source_count(updates@.take(i as int), SourceType::Flatpak),
                apt == source_count(updates@.take(i as int), SourceType::Apt),
            decreases updates.len() - i,
        {
            proof {
                assert(updates@.take(i + 1).drop_last() =~= updates@.take(i as int));
                lemma_source_count_le(updates@.take(i as int), SourceType::Dnf);
                lemma_source_count_le(updates@.take(i as int), SourceType::Flatpak);
                lemma_source_count_le(updates@.take(i as int), SourceType::Apt);
            }
            match updates[i].source {
                SourceType::Dnf => dnf = dnf + 1,
                SourceType::Flatpak => flatpak = flatpak + 1,
                SourceType::Apt => apt = apt + 1,
            }
            i = i + 1;
        }
        proof {
            assert(updates@.take(updates@.len() as int) =~= updates@);
        }
        let mut counts: Vec<(SourceType, usize)> = Vec::new();
        if dnf > 0 {
            counts.push((SourceType::Dnf, dnf));
        }
        if flatpak > 0 {
            counts.push((SourceType::Flatpak, flatpak));
        }
        if apt > 0 {
            counts.push((SourceType::Apt, apt));
        }
        proof {
            assert(counts@ =~= counts_spec(updates@));
        }
        let total = updates.len();
        StatusSummary { total, counts, updates, checked_at: None }
    }

    /// A summary of a check made now: the time is stamped in RFC 3339 form.
    pub fn from_fresh_check(updates: Vec<PackageUpdate>) -> (r: Self)
        ensures
            r.total == updates@.len(),
            r.updates@ == updates@,
            r.counts@ == counts_spec(updates@),
            r.checked_at is Some,
    {
        let mut s = StatusSummary::from_updates(updates);
        s.checked_at = Some(utc_now_rfc3339());
        s
    }

    /// Number of updates of a source: the count of its first entry, or none.
    pub fn count(&self, st: SourceType) -> (r: usize)
        ensures
            r == count_of(self.counts@, st),
    {
        let mut i: usize = 0;
        proof {
            assert(self.counts@.skip(0) =~= self.counts@);
        }
        while i < self.counts.len()
            invariant
                0 <= i <= self.counts.len(),
                count_of(self.counts@, st) == count_of(self.counts@.skip(i as int), st),
            decreases self.counts.len() - i,
        {
            proof {
                assert(self.counts@.skip(i as int)[0] == self.counts@[i as int]);
                assert(self.counts@.skip(i as int).skip(1) =~= self.counts@.skip(i + 1));
            }
            if self.counts[i].0 == st {
                return self.counts[i].1;
            }
            i = i + 1;
        }
        0
    }
}

#[derive(Debug, Clone, Copy, PartialEq, Eq, Structural, Hash, PartialOrd, Ord)]
pub enum CleanupKind {
    Orphan,
    UnusedRuntime,
    OldKernel,
    Cache,
}

impl CleanupKind {
    pub const ALL: [CleanupKind; 4] = [
        CleanupKind::Orphan,
        CleanupKind::UnusedRuntime,
        CleanupKind::OldKernel,
        CleanupKind::Cache,
    ];
}

#[derive(Debug)]
pub struct CleanupItem {
    pub source: SourceType,
    pub kind: CleanupKind,
    pub name: String,
    pub version: String,
    pub size: Option<u64>,
    pub arch: Option<String>,
}

pub struct CleanupItemView {
    pub source: SourceType,
    pub kind: CleanupKind,
    pub name: Seq<char>,
    pub version: Seq<char>,
    pub size: Option<u64>,
    pub arch: Option<Seq<char>>,
}

impl View for CleanupItem {
    type V = CleanupItemView;

    open spec fn view(&self) -> CleanupItemView {
        CleanupItemView {
            source: self.source,
            kind: self.kind,
            name: self.name@,
            version: self.version@,
            size: self.size,
            arch: opt_view(self.arch),
        }
    }
}

impl Clone for CleanupItem {
    fn clone(&self) -> (r: Self)
        ensures
            r == *self,
    {
        CleanupItem {
            source: self.source,
            kind: self.kind,
            name: self.name.clone(),
            version: self.version.clone(),
            size: self.size,
            arch: clone_opt(&self.arch),
        }
    }
}

pub open spec fn item_views(s: Seq<CleanupItem>) -> Seq<CleanupItemView> {
    s.map_values(|i: CleanupItem| i@)
}

/// The result of a cleanup scan: the items found, and the sources whose scan failed
/// with the failure's message.
#[derive(Debug)]
pub struct CleanupScan {
    pub items: Vec<CleanupItem>,
    pub failed: Vec<(SourceType, String)>,
}

impl CleanupScan {
    pub fn new() -> (r: Self)
        ensures
            r.items@.len() == 0,
            r.failed@.len() == 0,
    {
        CleanupScan { items: Vec::new(), failed: Vec::new() }
    }
}

/// Viewing a pushed list appends the view of the new element.
pub proof fn lemma_package_views_push(s: Seq<Package>, x: Package)
    ensures
        package_views(s.push(x)) == package_views(s).push(x@),
{
    assert(package_views(s.push(x)) =~= package_views(s).push(x@));
}

/// Viewing a pushed list appends the view of the new element.
pub proof fn lemma_repository_views_push(s: Seq<Repository>, x: Repository)
    ensures
        repository_views(s.push(x)) == repository_views(s).push(x@),
{
    assert(repository_views(s.push(x)) =~= repository_views(s).push(x@));
}

/// Viewing a pushed list appends the view of the new element.
pub proof fn lemma_update_views_push(s: Seq<PackageUpdate>, x: PackageUpdate)
    ensures
        update_views(s.push(x)) == update_views(s).push(x@),
{
    assert(update_views(s.push(x)) =~= update_views(s).push(x@));
}

/// Viewing a pushed list appends the view of the new element.
pub proof fn lemma_item_views_push(s: Seq<CleanupItem>, x: CleanupItem)
    ensures
        item_views(s.push(x)) == item_views(s).push(x@),
{
    assert(item_views(s.push(x)) =~= item_views(s).push(x@));
}

/// Viewing a pushed list appends the view of the new element.
pub proof fn lemma_string_views_push(s: Seq<String>, x: String)
    ensures
        string_views(s.push(x)) == string_views(s).push(x@),
{
    assert(string_views(s.push(x)) =~= string_views(s).push(x@));
}

} // verus!
