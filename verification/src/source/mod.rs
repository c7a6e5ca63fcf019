//! Readers of the package managers' command output, and what they share: pending
//! OpenPGP keys, installed-version tables and command lines.
pub mod apt;
pub mod dnf;
pub mod flatpak;

use vstd::prelude::*;

use crate::assoc::{assoc_insert, keys_distinct, pair_views, pairs_map};

use crate::config::PrivilegeEscalation;
use crate::error::PikeError;
use crate::package::{display_name_spec, CleanupItemView, PackageUpdate, PackageUpdateView, SourceType};
use crate::text::{chars_of, join, lines, lines_of, push_str, split_once_char, split_once_ch, string_of, views};

verus! {

/// An OpenPGP key that a refresh would ask to import.
#[derive(Debug, PartialEq, Eq)]
pub struct PendingGpgKey {
    pub key_id: String,
    pub user_id: String,
    pub fingerprint: String,
}

pub struct PendingGpgKeyView {
    pub key_id: Seq<char>,
    pub user_id: Seq<char>,
    pub fingerprint: Seq<char>,
}

impl View for PendingGpgKey {
    type V = PendingGpgKeyView;

    open spec fn view(&self) -> PendingGpgKeyView {
        PendingGpgKeyView {
            key_id: self.key_id@,
            user_id: self.user_id@,
            fingerprint: self.fingerprint@,
        }
    }
}

impl Clone for PendingGpgKey {
    fn clone(&self) -> (r: Self)
        ensures
            r == *self,
    {
        PendingGpgKey {
            key_id: self.key_id.clone(),
            user_id: self.user_id.clone(),
            fingerprint: self.fingerprint.clone(),
        }
    }
}

pub open spec fn key_views(s: Seq<PendingGpgKey>) -> Seq<PendingGpgKeyView> {
    s.map_values(|k: PendingGpgKey| k@)
}

// ---------------------------------------------------------------------------
// Installed-version tables.
// ---------------------------------------------------------------------------

/// A `key<delimiter>version` line with a key that is not empty sets the version of
/// the key; a later line for a key replaces an earlier one.
pub open spec fn apply_version_line(m: Map<Seq<char>, Seq<char>>, l: Seq<char>, delimiter: char) -> Map<
    Seq<char>,
    Seq<char>,
> {
    match split_once_char(l, delimiter) {
        Some((key, version)) => if key.len() == 0 {
            m
        } else {
            m.insert(key, version)
        },
        None => m,
    }
}

pub open spec fn versions_map(ls: Seq<Seq<char>>, delimiter: char) -> Map<Seq<char>, Seq<char>>
    decreases ls.len(),
{
    if ls.len() == 0 {
        Map::<Seq<char>, Seq<char>>::empty()
    } else {
        apply_version_line(versions_map(ls.drop_last(), delimiter), ls.last(), delimiter)
    }
}

pub open spec fn string_pair_views(s: Seq<(String, String)>) -> Seq<(Seq<char>, Seq<char>)> {
    s.map_values(|p: (String, String)| (p.0@, p.1@))
}

/// The versions by key of `key<delimiter>version` lines.
pub fn parse_installed_versions(output: &str, delimiter: char) -> (r: Vec<(String, String)>)
    ensures
        keys_distinct(pair_views(r@)),
        pairs_map(string_pair_views(r@)) == versions_map(lines(output@), delimiter),
{
    let text = chars_of(output);
    let ls = lines_of(&text);
    let mut r: Vec<(String, String)> = Vec::new();
    let mut i: usize = 0;
    proof {
        assert(views(ls@).take(0) =~= Seq::<Seq<char>>::empty());
        assert(pairs_map(string_pair_views(r@)) =~= Map::<Seq<char>, Seq<char>>::empty());
    }
    while i < ls.len()
        invariant
            0 <= i <= ls.len(),
            views(ls@) == lines(output@),
            keys_distinct(pair_views(r@)),
            pairs_map(string_pair_views(r@)) == versions_map(views(ls@).take(i as int), delimiter),
        decreases ls.len() - i,
    {
        proof {
            assert(views(ls@).take(i + 1).drop_last() =~= views(ls@).take(i as int));
            assert(views(ls@).take(i + 1).last() == ls@[i as int]@);
        }
        match split_once_ch(&ls[i], delimiter) {
            Some((key, version)) => {
                if key.len() > 0 {
                    let ghost before = r@;
                    let k = string_of(&key);
                    let v = string_of(&version);
                    let ghost gk = k@;
                    let ghost gv = v;
                    assoc_insert(&mut r, k, v);
                    proof {
                        lemma_string_pairs_map(before, r@, gk, gv);
                    }
                }
            },
            None => {},
        }
        i = i + 1;
    }
    proof {
        assert(views(ls@).take(ls@.len() as int) =~= views(ls@));
    }
    r
}

/// What the generic table operations give for a table of strings, given for its
/// string view.
proof fn lemma_string_pairs_map(
    before: Seq<(String, String)>,
    after: Seq<(String, String)>,
    k: Seq<char>,
    v: String,
)
    requires
        keys_distinct(pair_views(before)),
        pairs_map(pair_views(after)) == pairs_map(pair_views(before)).insert(k, v),
        keys_distinct(pair_views(after)),
    ensures
        pairs_map(string_pair_views(after)) == pairs_map(string_pair_views(before)).insert(k, v@),
{
    lemma_map_views(before);
    lemma_map_views(after);
    assert(pairs_map(string_pair_views(after)) =~= pairs_map(string_pair_views(before)).insert(
        k,
        v@,
    ));
}

/// The string view of a table is its table with each version taken by its view.
proof fn lemma_map_views(s: Seq<(String, String)>)
    ensures
        pairs_map(string_pair_views(s)).dom() == pairs_map(pair_views(s)).dom(),
        forall|k: Seq<char>|
            #[trigger] pairs_map(pair_views(s)).contains_key(k) ==> pairs_map(string_pair_views(s))[k]
                == pairs_map(pair_views(s))[k]@,
    decreases s.len(),
{
    if s.len() > 0 {
        lemma_map_views(s.drop_last());
        assert(string_pair_views(s).drop_last() =~= string_pair_views(s.drop_last()));
        assert(pair_views(s).drop_last() =~= pair_views(s.drop_last()));
        assert(pairs_map(string_pair_views(s)).dom() =~= pairs_map(pair_views(s)).dom());
    } else {
        assert(pairs_map(string_pair_views(s)).dom() =~= pairs_map(pair_views(s)).dom());
    }
}

/// `cmd arg arg ...`, the way a command is shown in errors and logs.
pub open spec fn format_cmd_spec(cmd: Seq<char>, args: Seq<Seq<char>>) -> Seq<char> {
    cmd + " "@ + join(args, " "@)
}

pub fn format_cmd(cmd: &str, args: &[&str]) -> (r: String)
    ensures
        r@ == format_cmd_spec(cmd@, crate::package::str_views(args@)),
{
    let mut parts: Vec<Vec<char>> = Vec::new();
    let mut i: usize = 0;
    while i < args.len()
        invariant
            0 <= i <= args.len(),
            views(parts@) == crate::package::str_views(args@).take(i as int),
        decreases args.len() - i,
    {
        let c = chars_of(args[i]);
        proof {
            crate::text::lemma_views_push(parts@, c);
            assert(crate::package::str_views(args@).take(i + 1) =~= crate::package::str_views(
                args@,
            ).take(i as int).push(args@[i as int]@));
        }
        parts.push(c);
        i = i + 1;
    }
    proof {
        assert(crate::package::str_views(args@).take(args@.len() as int) =~= crate::package::str_views(args@));
    }
    let joined = crate::text::join_chars(&parts, " ");
    let mut out = chars_of(cmd);
    push_str(&mut out, " ");
    crate::text::push_all(&mut out, &joined);
    string_of(&out)
}

// ---------------------------------------------------------------------------
// Privilege escalation.
// ---------------------------------------------------------------------------

/// The command that runs a privileged command, given whether standard input is a
/// terminal and whether `pkexec` is installed.
pub open spec fn privilege_command_spec(method: PrivilegeEscalation, tty: bool, has_pkexec: bool) -> Option<
    Seq<char>,
> {
    match method {
        PrivilegeEscalation::Auto => if tty {
            Some("sudo"@)
        } else if has_pkexec {
            Some("pkexec"@)
        } else {
            None
        },
        PrivilegeEscalation::Sudo => if tty {
            Some("sudo"@)
        } else {
            None
        },
        PrivilegeEscalation::Pkexec => Some("pkexec"@),
        PrivilegeEscalation::Doas => if tty {
            Some("doas"@)
        } else {
            None
        },
    }
}

/// The command to run privileged commands with; without a terminal only `pkexec`
/// can ask for a password, and the error says what to change.
pub fn privilege_command(method: PrivilegeEscalation, tty: bool, has_pkexec: bool) -> (r: Result<
    &'static str,
    PikeError,
>)
    ensures
        match privilege_command_spec(method, tty, has_pkexec) {
            Some(c) => r matches Ok(x) && x@ == c,
            None => r matches Err(PikeError::Other(_)),
        },
{
    match method {
        PrivilegeEscalation::Auto => {
            if tty {
                Ok("sudo")
            } else if has_pkexec {
                Ok("pkexec")
            } else {
                let m = chars_of(
                    "no TTY available and pkexec not found; set privilege_escalation in config or run from a terminal",
                );
                Err(PikeError::Other(string_of(&m)))
            }
        },
        PrivilegeEscalation::Sudo => {
            if tty {
                Ok("sudo")
            } else {
                let m = chars_of(
                    "sudo requires a terminal; run from a terminal or set privilege_escalation = \"pkexec\" in config",
                );
                Err(PikeError::Other(string_of(&m)))
            }
        },
        PrivilegeEscalation::Pkexec => Ok("pkexec"),
        PrivilegeEscalation::Doas => {
            if tty {
                Ok("doas")
            } else {
                let m = chars_of(
                    "doas requires a terminal; run from a terminal or set privilege_escalation = \"pkexec\" in config",
                );
                Err(PikeError::Other(string_of(&m)))
            }
        },
    }
}

// ---------------------------------------------------------------------------
// Installed versions of updates and search results.
// ---------------------------------------------------------------------------

/// Sets the installed version of each update that `versions` lists under the key
/// `key(update)`.
pub open spec fn with_installed(
    u: PackageUpdateView,
    versions: Map<Seq<char>, Seq<char>>,
    key: Seq<char>,
) -> PackageUpdateView {
    if versions.contains_key(key) {
        PackageUpdateView { installed_version: versions[key], ..u }
    } else {
        u
    }
}

/// The key an update is looked up by: `name.arch` for dnf, the name otherwise.
pub open spec fn update_key(u: PackageUpdateView, by_arch: bool) -> Seq<char> {
    if by_arch {
        crate::source::dnf::version_key_spec(u.name, u.arch)
    } else {
        u.name
    }
}

/// Filling in installed versions looks an update up by `name.arch` when by arch, by
/// name otherwise: a version listed under that key becomes the installed version, the
/// update is otherwise left as it was, and its name, source, arch and available
/// version never change.
pub proof fn lemma_installed_version_lookup(
    u: PackageUpdateView,
    versions: Map<Seq<char>, Seq<char>>,
    by_arch: bool,
)
    ensures
        ({
            let r = with_installed(u, versions, update_key(u, by_arch));
            &&& r.name == u.name && r.source == u.source && r.arch == u.arch
            &&& r.available_version == u.available_version
            &&& (by_arch && u.arch is Some && versions.contains_key(u.name + "."@ + u.arch->0))
                ==> r.installed_version == versions[u.name + "."@ + u.arch->0]
            &&& (by_arch && u.arch is Some && !versions.contains_key(u.name + "."@ + u.arch->0))
                ==> r == u
            &&& (!by_arch || u.arch is None) && versions.contains_key(u.name)
                ==> r.installed_version == versions[u.name]
            &&& (!by_arch || u.arch is None) && !versions.contains_key(u.name) ==> r == u
        }),
{
}

/// The version that `table` lists under `key`.
pub fn lookup(table: &Vec<(String, String)>, key: &[char]) -> (r: Option<String>)
    requires
        keys_distinct(pair_views(table@)),
    ensures
        match r {
            Some(v) => pairs_map(string_pair_views(table@)).contains_key(key@) && v@ == pairs_map(
                string_pair_views(table@),
            )[key@],
            None => !pairs_map(string_pair_views(table@)).contains_key(key@),
        },
{
    proof {
        lemma_map_views(table@);
        crate::assoc::lemma_pairs_map_keys(pair_views(table@), key@);
    }
    match crate::assoc::key_index(table, key) {
        Some(i) => {
            proof {
                assert(pair_views(table@)[i as int].0 == key@);
                crate::assoc::lemma_pairs_map_value(pair_views(table@), i as int);
            }
            Some(table[i].1.clone())
        },
        None => {
            proof {
                assert forall|j: int| 0 <= j < pair_views(table@).len() implies #[trigger] pair_views(
                    table@,
                )[j].0 != key@ by {
                    assert(pair_views(table@)[j].0 == table@[j].0@);
                }
            }
            None
        },
    }
}

/// Fills in installed versions from a table of versions by key (`name.arch` when
/// `by_arch`, else the name).
pub fn apply_installed_versions(updates: Vec<PackageUpdate>, versions: &Vec<(String, String)>, by_arch: bool) -> (r:
    Vec<PackageUpdate>)
    requires
        keys_distinct(pair_views(versions@)),
    ensures
        r@.len() == updates@.len(),
        forall|i: int|
            0 <= i < r@.len() ==> #[trigger] r@[i]@ == with_installed(
                updates@[i]@,
                pairs_map(string_pair_views(versions@)),
                update_key(updates@[i]@, by_arch),
            ),
{
    let mut r: Vec<PackageUpdate> = Vec::new();
    let mut i: usize = 0;
    while i < updates.len()
        invariant
            0 <= i <= updates.len(),
            keys_distinct(pair_views(versions@)),
            r@.len() == i,
            forall|j: int|
                0 <= j < i ==> #[trigger] r@[j]@ == with_installed(
                    updates@[j]@,
                    pairs_map(string_pair_views(versions@)),
                    update_key(updates@[j]@, by_arch),
                ),
        decreases updates.len() - i,
    {
        let u = &updates[i];
        let key = if by_arch {
            let arch = match &u.arch {
                Some(a) => Some(a.as_str()),
                None => None,
            };
            crate::source::dnf::version_key(u.name.as_str(), arch)
        } else {
            u.name.clone()
        };
        let kc = chars_of(key.as_str());
        let installed = match lookup(versions, &kc) {
            Some(v) => v,
            None => u.installed_version.clone(),
        };
        let x = PackageUpdate {
            name: u.name.clone(),
            source: u.source,
            arch: crate::package::clone_opt(&u.arch),
            installed_version: installed,
            available_version: u.available_version.clone(),
        };
        r.push(x);
        i = i + 1;
    }
    r
}

// ---------------------------------------------------------------------------
// Packages removed by a cleanup.
// ---------------------------------------------------------------------------

/// The names of the items, in order.
pub open spec fn item_names(items: Seq<CleanupItemView>) -> Seq<Seq<char>> {
    items.map_values(|i: CleanupItemView| i.name)
}

/// The versions of the items, in order.
pub open spec fn item_versions(items: Seq<CleanupItemView>) -> Seq<Seq<char>> {
    items.map_values(|i: CleanupItemView| i.version)
}

// ---------------------------------------------------------------------------
// The sources.
// ---------------------------------------------------------------------------

/// The dnf5 source.
#[derive(Debug, Clone, Copy, Default)]
pub struct DnfSource;

/// The Flatpak source.
#[derive(Debug, Clone, Copy, Default)]
pub struct FlatpakSource;

/// The APT source.
#[derive(Debug, Clone, Copy, Default)]
pub struct AptSource;

impl DnfSource {
    pub fn name(&self) -> (r: &'static str)
        ensures
            r@ == display_name_spec(SourceType::Dnf),
    {
        SourceType::Dnf.display_name()
    }

    pub fn source_type(&self) -> (r: SourceType)
        ensures
            r == SourceType::Dnf,
    {
        SourceType::Dnf
    }
}

impl FlatpakSource {
    pub fn name(&self) -> (r: &'static str)
        ensures
            r@ == display_name_spec(SourceType::Flatpak),
    {
        SourceType::Flatpak.display_name()
    }

    pub fn source_type(&self) -> (r: SourceType)
        ensures
            r == SourceType::Flatpak,
    {
        SourceType::Flatpak
    }
}

impl AptSource {
    pub fn name(&self) -> (r: &'static str)
        ensures
            r@ == display_name_spec(SourceType::Apt),
    {
        SourceType::Apt.display_name()
    }

    pub fn source_type(&self) -> (r: SourceType)
        ensures
            r == SourceType::Apt,
    {
        SourceType::Apt
    }
}

} // verus!
