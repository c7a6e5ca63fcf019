//! Reading `flatpak` output: search results, updates, installed applications,
//! remotes and unused runtimes, and the references `flatpak uninstall` takes.
use vstd::prelude::*;

use crate::error::PikeError;
use crate::order::{chars_lt, lemma_lt_asym, lemma_lt_irrefl, lemma_lt_total, lemma_lt_trans, seq_lt};
use crate::package::{
    lemma_item_views_push, lemma_package_views_push, lemma_repository_views_push,
    lemma_update_views_push, opt_view, item_views, package_views, repository_views, update_views,
    CleanupItem, CleanupItemView, CleanupKind, Package, PackageUpdate, PackageUpdateView,
    PackageView, Repository, RepositoryView, SourceType,
};
use crate::text::{
    all_digits, chars_eq, chars_of, contains, contains_chars, contains_str, eq_str, filter_map,
    is_digit, lines, lines_of, split, split_ch, string_of, to_lowercase, trim, trim_chars,
    trim_start, trim_start_chars, unicode_lower, views,
};
use crate::util::{truncate_chars, truncate_spec};

verus! {

pub open spec fn non_empty_spec(s: Seq<char>) -> Option<Seq<char>> {
    if s.len() == 0 {
        None
    } else {
        Some(s)
    }
}

pub fn non_empty(s: &[char]) -> (r: Option<String>)
    ensures
        opt_view(r) == non_empty_spec(s@),
{
    if s.len() == 0 {
        None
    } else {
        Some(string_of(s))
    }
}

// ---------------------------------------------------------------------------
// Tab-separated listings.
// ---------------------------------------------------------------------------

/// `flatpak search --columns=name,description,application,version,remotes`.
pub open spec fn search_line(l: Seq<char>) -> Option<PackageView> {
    let f = split(l, '\t');
    if l.len() > 0 && f.len() >= 4 {
        Some(
            PackageView {
                name: f[2],
                display_name: non_empty_spec(f[0]),
                version: f[3],
                source: SourceType::Flatpak,
                arch: None,
                description: non_empty_spec(f[1]),
            },
        )
    } else {
        None
    }
}

pub open spec fn search_lines(ls: Seq<Seq<char>>) -> Seq<PackageView> {
    filter_map(ls, |l: Seq<char>| search_line(l))
}

/// `flatpak remote-ls --updates --columns=name,application,version,arch`.
pub open spec fn update_line(l: Seq<char>) -> Option<PackageUpdateView> {
    let f = split(l, '\t');
    if l.len() > 0 && f.len() >= 4 {
        Some(
            PackageUpdateView {
                name: f[1],
                source: SourceType::Flatpak,
                arch: non_empty_spec(f[3]),
                installed_version: Seq::<char>::empty(),
                available_version: f[2],
            },
        )
    } else {
        None
    }
}

pub open spec fn update_lines(ls: Seq<Seq<char>>) -> Seq<PackageUpdateView> {
    filter_map(ls, |l: Seq<char>| update_line(l))
}

/// `flatpak list --app --columns=name,application,version,arch,description`.
pub open spec fn installed_line(l: Seq<char>) -> Option<PackageView> {
    let f = split(l, '\t');
    if l.len() > 0 && f.len() >= 4 {
        Some(
            PackageView {
                name: f[1],
                display_name: non_empty_spec(f[0]),
                version: f[2],
                source: SourceType::Flatpak,
                arch: non_empty_spec(f[3]),
                description: if f.len() > 4 {
                    non_empty_spec(f[4])
                } else {
                    None
                },
            },
        )
    } else {
        None
    }
}

pub open spec fn installed_lines(ls: Seq<Seq<char>>) -> Seq<PackageView> {
    filter_map(ls, |l: Seq<char>| installed_line(l))
}

fn search_row(l: &[char]) -> (r: Option<Package>)
    ensures
        match r {
            Some(p) => search_line(l@) == Some(p@),
            None => search_line(l@) is None,
        },
{
    let f = split_ch(l, '\t');
    if l.len() > 0 && f.len() >= 4 {
        proof {
            assert(views(f@)[0] == f@[0]@ && views(f@)[1] == f@[1]@);
            assert(views(f@)[2] == f@[2]@ && views(f@)[3] == f@[3]@);
        }
        Some(
            Package {
                name: string_of(&f[2]),
                display_name: non_empty(&f[0]),
                version: string_of(&f[3]),
                source: SourceType::Flatpak,
                arch: None,
                description: non_empty(&f[1]),
            },
        )
    } else {
        None
    }
}

fn update_row(l: &[char]) -> (r: Option<PackageUpdate>)
    ensures
        match r {
            Some(u) => update_line(l@) == Some(u@),
            None => update_line(l@) is None,
        },
{
    let f = split_ch(l, '\t');
    if l.len() > 0 && f.len() >= 4 {
        proof {
            assert(views(f@)[1] == f@[1]@ && views(f@)[2] == f@[2]@ && views(f@)[3] == f@[3]@);
        }
        let e: Vec<char> = Vec::new();
        Some(
            PackageUpdate {
                name: string_of(&f[1]),
                source: SourceType::Flatpak,
                arch: non_empty(&f[3]),
                installed_version: string_of(&e),
                available_version: string_of(&f[2]),
            },
        )
    } else {
        None
    }
}

fn installed_row(l: &[char]) -> (r: Option<Package>)
    ensures
        match r {
            Some(p) => installed_line(l@) == Some(p@),
            None => installed_line(l@) is None,
        },
{
    let f = split_ch(l, '\t');
    if l.len() > 0 && f.len() >= 4 {
        proof {
            assert(views(f@)[0] == f@[0]@ && views(f@)[1] == f@[1]@);
            assert(views(f@)[2] == f@[2]@ && views(f@)[3] == f@[3]@);
        }
        let description = if f.len() > 4 {
            proof {
                assert(views(f@)[4] == f@[4]@);
            }
            non_empty(&f[4])
        } else {
            None
        };
        Some(
            Package {
                name: string_of(&f[1]),
                display_name: non_empty(&f[0]),
                version: string_of(&f[2]),
                source: SourceType::Flatpak,
                arch: non_empty(&f[3]),
                description,
            },
        )
    } else {
        None
    }
}

/// Search results, one package per line with at least four columns.
pub fn parse_search_output(output: &str) -> (r: Vec<Package>)
    ensures
        package_views(r@) == search_lines(lines(output@)),
{
    let text = chars_of(output);
    let ls = lines_of(&text);
    let mut r: Vec<Package> = Vec::new();
    let mut i: usize = 0;
    proof {
        assert(views(ls@).take(0) =~= Seq::<Seq<char>>::empty());
        assert(package_views(r@) =~= Seq::<PackageView>::empty());
    }
    while i < ls.len()
        invariant
            0 <= i <= ls.len(),
            views(ls@) == lines(output@),
            package_views(r@) == search_lines(views(ls@).take(i as int)),
        decreases ls.len() - i,
    {
        proof {
            assert(views(ls@).take(i + 1).drop_last() =~= views(ls@).take(i as int));
            assert(views(ls@).take(i + 1).last() == ls@[i as int]@);
        }
        match search_row(&ls[i]) {
            Some(p) => {
                proof {
                    lemma_package_views_push(r@, p);
                }
                r.push(p);
            },
            None => {},
        }
        i = i + 1;
    }
    proof {
        assert(views(ls@).take(ls@.len() as int) =~= views(ls@));
    }
    r
}

/// Available updates, one per line with at least four columns.
pub fn parse_updates_output(output: &str) -> (r: Vec<PackageUpdate>)
    ensures
        update_views(r@) == update_lines(lines(output@)),
{
    let text = chars_of(output);
    let ls = lines_of(&text);
    let mut r: Vec<PackageUpdate> = Vec::new();
    let mut i: usize = 0;
    proof {
        assert(views(ls@).take(0) =~= Seq::<Seq<char>>::empty());
        assert(update_views(r@) =~= Seq::<PackageUpdateView>::empty());
    }
    while i < ls.len()
        invariant
            0 <= i <= ls.len(),
            views(ls@) == lines(output@),
            update_views(r@) == update_lines(views(ls@).take(i as int)),
        decreases ls.len() - i,
    {
        proof {
            assert(views(ls@).take(i + 1).drop_last() =~= views(ls@).take(i as int));
            assert(views(ls@).take(i + 1).last() == ls@[i as int]@);
        }
        match update_row(&ls[i]) {
            Some(u) => {
                proof {
                    lemma_update_views_push(r@, u);
                }
                r.push(u);
            },
            None => {},
        }
        i = i + 1;
    }
    proof {
        assert(views(ls@).take(ls@.len() as int) =~= views(ls@));
    }
    r
}

/// Installed applications, one per line with at least four columns.
pub fn parse_list_installed_output(output: &str) -> (r: Vec<Package>)
    ensures
        package_views(r@) == installed_lines(lines(output@)),
{
    let text = chars_of(output);
    let ls = lines_of(&text);
    let mut r: Vec<Package> = Vec::new();
    let mut i: usize = 0;
    proof {
        assert(views(ls@).take(0) =~= Seq::<Seq<char>>::empty());
        assert(package_views(r@) =~= Seq::<PackageView>::empty());
    }
    while i < ls.len()
        invariant
            0 <= i <= ls.len(),
            views(ls@) == lines(output@),
            package_views(r@) == installed_lines(views(ls@).take(i as int)),
        decreases ls.len() - i,
    {
        proof {
            assert(views(ls@).take(i + 1).drop_last() =~= views(ls@).take(i as int));
            assert(views(ls@).take(i + 1).last() == ls@[i as int]@);
        }
        match installed_row(&ls[i]) {
            Some(p) => {
                proof {
                    lemma_package_views_push(r@, p);
                }
                r.push(p);
            },
            None => {},
        }
        i = i + 1;
    }
    proof {
        assert(views(ls@).take(ls@.len() as int) =~= views(ls@));
    }
    r
}

// ---------------------------------------------------------------------------
// Remotes.
// ---------------------------------------------------------------------------

/// Whether a line of `flatpak remotes --columns=name` names the remote `id`.
pub open spec fn contains_remote_spec(output: Seq<char>, id: Seq<char>) -> bool {
    exists|k: int| 0 <= k < lines(output).len() && trim(#[trigger] lines(output)[k]) == id
}

pub fn contains_remote(output: &str, id: &str) -> (r: bool)
    ensures
        r == contains_remote_spec(output@, id@),
{
    let text = chars_of(output);
    let idc = chars_of(id);
    let ls = lines_of(&text);
    let mut i: usize = 0;
    while i < ls.len()
        invariant
            0 <= i <= ls.len(),
            views(ls@) == lines(output@),
            idc@ == id@,
            forall|k: int| 0 <= k < i ==> trim(#[trigger] lines(output@)[k]) != id@,
        decreases ls.len() - i,
    {
        let t = trim_chars(&ls[i]);
        proof {
            assert(views(ls@)[i as int] == ls@[i as int]@);
        }
        if chars_eq(&t, &idc) {
            return true;
        }
        i = i + 1;
    }
    false
}

pub open spec fn option_is_disabled(options: Seq<char>) -> bool {
    exists|k: int|
        0 <= k < split(options, ',').len() && trim(#[trigger] split(options, ',')[k])
            == "disabled"@
}

/// `flatpak remotes --show-disabled --columns=name,title,url,options`.
pub open spec fn remote_line(l: Seq<char>) -> Option<RepositoryView> {
    let f = split(l, '\t');
    let id = trim(f[0]);
    if l.len() == 0 || id.len() == 0 {
        None
    } else {
        let name = if f.len() > 1 {
            trim(f[1])
        } else {
            Seq::<char>::empty()
        };
        let url = if f.len() > 2 && trim(f[2]).len() > 0 {
            Some(trim(f[2]))
        } else {
            None
        };
        let options = if f.len() > 3 {
            f[3]
        } else {
            Seq::<char>::empty()
        };
        Some(
            RepositoryView {
                id,
                name,
                source: SourceType::Flatpak,
                enabled: !option_is_disabled(options),
                url,
            },
        )
    }
}

pub open spec fn remote_lines(ls: Seq<Seq<char>>) -> Seq<RepositoryView> {
    filter_map(ls, |l: Seq<char>| remote_line(l))
}

fn disabled_option(options: &[char]) -> (r: bool)
    ensures
        r == option_is_disabled(options@),
{
    let parts = split_ch(options, ',');
    let mut i: usize = 0;
    while i < parts.len()
        invariant
            0 <= i <= parts.len(),
            views(parts@) == split(options@, ','),
            forall|k: int| 0 <= k < i ==> trim(#[trigger] split(options@, ',')[k]) != "disabled"@,
        decreases parts.len() - i,
    {
        let t = trim_chars(&parts[i]);
        proof {
            assert(views(parts@)[i as int] == parts@[i as int]@);
        }
        if eq_str(&t, "disabled") {
            return true;
        }
        i = i + 1;
    }
    false
}

fn remote_row(l: &[char]) -> (r: Option<Repository>)
    ensures
        match r {
            Some(x) => remote_line(l@) == Some(x@),
            None => remote_line(l@) is None,
        },
{
    let f = split_ch(l, '\t');
    proof {
        crate::text::lemma_split_by_len(l@, crate::text::Sep::Char('\t'));
        assert(views(f@)[0] == f@[0]@);
    }
    let id = trim_chars(&f[0]);
    if l.len() == 0 || id.len() == 0 {
        return None;
    }
    let name: Vec<char> = if f.len() > 1 {
        proof {
            assert(views(f@)[1] == f@[1]@);
        }
        trim_chars(&f[1])
    } else {
        Vec::new()
    };
    let url: Option<String> = if f.len() > 2 {
        proof {
            assert(views(f@)[2] == f@[2]@);
        }
        let u = trim_chars(&f[2]);
        if u.len() > 0 {
            Some(string_of(&u))
        } else {
            None
        }
    } else {
        None
    };
    let disabled = if f.len() > 3 {
        proof {
            assert(views(f@)[3] == f@[3]@);
        }
        disabled_option(&f[3])
    } else {
        let e: Vec<char> = Vec::new();
        disabled_option(&e)
    };
    proof {
        let e = Seq::<char>::empty();
        if f.len() <= 1 {
            assert(name@ =~= e);
        }
    }
    Some(
        Repository {
            id: string_of(&id),
            name: string_of(&name),
            source: SourceType::Flatpak,
            enabled: !disabled,
            url,
        },
    )
}

/// Remotes, one per line whose first column names one; a remote is disabled when its
/// options list `disabled`.
pub fn parse_remotes_output(output: &str) -> (r: Vec<Repository>)
    ensures
        repository_views(r@) == remote_lines(lines(output@)),
{
    let text = chars_of(output);
    let ls = lines_of(&text);
    let mut r: Vec<Repository> = Vec::new();
    let mut i: usize = 0;
    proof {
        assert(views(ls@).take(0) =~= Seq::<Seq<char>>::empty());
        assert(repository_views(r@) =~= Seq::<RepositoryView>::empty());
    }
    while i < ls.len()
        invariant
            0 <= i <= ls.len(),
            views(ls@) == lines(output@),
            repository_views(r@) == remote_lines(views(ls@).take(i as int)),
        decreases ls.len() - i,
    {
        proof {
            assert(views(ls@).take(i + 1).drop_last() =~= views(ls@).take(i as int));
            assert(views(ls@).take(i + 1).last() == ls@[i as int]@);
        }
        match remote_row(&ls[i]) {
            Some(x) => {
                proof {
                    lemma_repository_views_push(r@, x);
                }
                r.push(x);
            },
            None => {},
        }
        i = i + 1;
    }
    proof {
        assert(views(ls@).take(ls@.len() as int) =~= views(ls@));
    }
    r
}

// ---------------------------------------------------------------------------
// Unused runtimes (`flatpak uninstall --unused`, answered "no").
// ---------------------------------------------------------------------------

/// The tab-separated fields of a numbered row (`  1.\t...`): the first field is one or
/// more digits and a dot.
pub open spec fn numbered_fields(l: Seq<char>) -> Option<Seq<Seq<char>>> {
    let f = split(trim_start(l), '\t');
    let first = f[0];
    if first.len() >= 2 && first.last() == '.' && all_digits(first.drop_last()) {
        Some(f)
    } else {
        None
    }
}

/// A numbered row of five fields (no arch column: the default arch) or six.
pub open spec fn unused_line(l: Seq<char>, default_arch: Seq<char>) -> Option<CleanupItemView> {
    match numbered_fields(l) {
        None => None,
        Some(f) => {
            if f.len() != 5 && f.len() != 6 {
                None
            } else {
                let name = trim(f[2]);
                let arch = if f.len() == 5 {
                    default_arch
                } else {
                    trim(f[3])
                };
                let branch = if f.len() == 5 {
                    f[3]
                } else {
                    f[4]
                };
                if name.len() == 0 {
                    None
                } else {
                    Some(
                        CleanupItemView {
                            source: SourceType::Flatpak,
                            kind: CleanupKind::UnusedRuntime,
                            name,
                            version: trim(branch),
                            size: None,
                            arch: Some(arch),
                        },
                    )
                }
            }
        },
    }
}

pub open spec fn unused_lines(ls: Seq<Seq<char>>, default_arch: Seq<char>) -> Seq<
    CleanupItemView,
> {
    filter_map(ls, |l: Seq<char>| unused_line(l, default_arch))
}

fn numbered_row(l: &[char]) -> (r: Option<Vec<Vec<char>>>)
    ensures
        match r {
            Some(f) => numbered_fields(l@) == Some(views(f@)),
            None => numbered_fields(l@) is None,
        },
{
    let t = trim_start_chars(l);
    let f = split_ch(&t, '\t');
    proof {
        crate::text::lemma_split_by_len(t@, crate::text::Sep::Char('\t'));
        assert(views(f@)[0] == f@[0]@);
    }
    let n = f[0].len();
    if n < 2 || f[0][n - 1] != '.' {
        return None;
    }
    let mut i: usize = 0;
    while i < n - 1
        invariant
            0 <= i <= n - 1,
            f@.len() >= 1,
            t@ == trim_start(l@),
            views(f@) == split(t@, '\t'),
            views(f@)[0] == f@[0]@,
            n == f@[0]@.len(),
            n >= 2,
            forall|k: int| 0 <= k < i ==> is_digit(f@[0]@[k]),
        decreases n - 1 - i,
    {
        let c = f[0][i];
        if !('0' <= c && c <= '9') {
            proof {
                assert(f@[0]@.drop_last()[i as int] == c);
                assert(!all_digits(f@[0]@.drop_last()));
            }
            return None;
        }
        i = i + 1;
    }
    proof {
        assert forall|k: int| 0 <= k < f@[0]@.drop_last().len() implies is_digit(
            #[trigger] f@[0]@.drop_last()[k],
        ) by {
            assert(f@[0]@.drop_last()[k] == f@[0]@[k]);
        }
    }
    Some(f)
}

fn unused_row(l: &[char], default_arch: &[char]) -> (r: Option<CleanupItem>)
    ensures
        match r {
            Some(x) => unused_line(l@, default_arch@) == Some(x@),
            None => unused_line(l@, default_arch@) is None,
        },
{
    let f = match numbered_row(l) {
        Some(f) => f,
        None => return None,
    };
    if f.len() != 5 && f.len() != 6 {
        return None;
    }
    proof {
        assert(views(f@)[2] == f@[2]@ && views(f@)[3] == f@[3]@ && views(f@)[4] == f@[4]@);
    }
    let name = trim_chars(&f[2]);
    if name.len() == 0 {
        return None;
    }
    let (arch, branch) = if f.len() == 5 {
        (string_of(default_arch), trim_chars(&f[3]))
    } else {
        proof {
            assert(views(f@)[5] == f@[5]@);
        }
        let a = trim_chars(&f[3]);
        (string_of(&a), trim_chars(&f[4]))
    };
    Some(
        CleanupItem {
            source: SourceType::Flatpak,
            kind: CleanupKind::UnusedRuntime,
            name: string_of(&name),
            version: string_of(&branch),
            size: None,
            arch: Some(arch),
        },
    )
}

/// Unused runtimes listed by a dry run of `flatpak uninstall --unused`; flatpak omits
/// the arch column when every row has the default arch.
pub fn parse_unused_output(output: &str, default_arch: &str) -> (r: Vec<CleanupItem>)
    ensures
        item_views(r@) == unused_lines(lines(output@), default_arch@),
{
    let text = chars_of(output);
    let arch = chars_of(default_arch);
    let ls = lines_of(&text);
    let mut r: Vec<CleanupItem> = Vec::new();
    let mut i: usize = 0;
    proof {
        assert(views(ls@).take(0) =~= Seq::<Seq<char>>::empty());
        assert(item_views(r@) =~= Seq::<CleanupItemView>::empty());
    }
    while i < ls.len()
        invariant
            0 <= i <= ls.len(),
            views(ls@) == lines(output@),
            arch@ == default_arch@,
            item_views(r@) == unused_lines(views(ls@).take(i as int), default_arch@),
        decreases ls.len() - i,
    {
        proof {
            assert(views(ls@).take(i + 1).drop_last() =~= views(ls@).take(i as int));
            assert(views(ls@).take(i + 1).last() == ls@[i as int]@);
        }
        match unused_row(&ls[i], &arch) {
            Some(x) => {
                proof {
                    lemma_item_views_push(r@, x);
                }
                r.push(x);
            },
            None => {},
        }
        i = i + 1;
    }
    proof {
        assert(views(ls@).take(ls@.len() as int) =~= views(ls@));
    }
    r
}

/// Whether some line of the output is a numbered row.
pub open spec fn has_numbered_row(output: Seq<char>) -> bool {
    exists|k: int| 0 <= k < lines(output).len() && #[trigger] numbered_fields(lines(output)[k]) is Some
}

/// A dry run that found nothing must say so; rows that could not be read, or output
/// that neither lists nor reports nothing, are a parse error.
pub open spec fn unused_output_fails(output: Seq<char>, items_empty: bool) -> bool {
    items_empty && (has_numbered_row(output) || !contains(output, "Nothing unused"@))
}

pub fn check_unused_output(output: &str, items: &[CleanupItem]) -> (r: Result<(), PikeError>)
    ensures
        !unused_output_fails(output@, items@.len() == 0) ==> r is Ok,
        unused_output_fails(output@, items@.len() == 0) ==> (r matches Err(
            PikeError::Parse { source_name, detail },
        ) && source_name@ == "flatpak"@ && detail@ == "unexpected output from flatpak uninstall: "@
            + truncate_spec(trim(output@), 200)),
{
    if items.len() > 0 {
        return Ok(());
    }
    let text = chars_of(output);
    let ls = lines_of(&text);
    let mut numbered = false;
    let mut i: usize = 0;
    while i < ls.len()
        invariant
            0 <= i <= ls.len(),
            views(ls@) == lines(output@),
            numbered == exists|k: int|
                0 <= k < i && #[trigger] numbered_fields(lines(output@)[k]) is Some,
        decreases ls.len() - i,
    {
        proof {
            assert(views(ls@)[i as int] == ls@[i as int]@);
        }
        if numbered_row(&ls[i]).is_some() {
            numbered = true;
        }
        i = i + 1;
    }
    if numbered || !contains_str(&text, "Nothing unused") {
        let t = trim_chars(&text);
        let cut = truncate_chars(&t, 200);
        let mut d = chars_of("unexpected output from flatpak uninstall: ");
        crate::text::push_all(&mut d, &cut);
        let name = chars_of("flatpak");
        return Err(PikeError::Parse { source_name: string_of(&name), detail: string_of(&d) });
    }
    Ok(())
}

// ---------------------------------------------------------------------------
// Runtime references.
// ---------------------------------------------------------------------------

/// The identity of a runtime: name, arch and branch.
pub open spec fn key_eq(a: CleanupItemView, b: CleanupItemView) -> bool {
    a.name == b.name && a.arch == b.arch && a.version == b.version
}

pub open spec fn opt_lt(a: Option<Seq<char>>, b: Option<Seq<char>>) -> bool {
    match (a, b) {
        (None, Some(_)) => true,
        (Some(x), Some(y)) => seq_lt(x, y),
        _ => false,
    }
}

/// Order of runtimes by name, then arch (none first), then branch.
pub open spec fn key_lt(a: CleanupItemView, b: CleanupItemView) -> bool {
    seq_lt(a.name, b.name) || (a.name == b.name && (opt_lt(a.arch, b.arch) || (a.arch == b.arch
        && seq_lt(a.version, b.version))))
}

/// The cleanup key order is a strict total order, and equal keys are not ordered.
pub proof fn lemma_key_order(a: CleanupItemView, b: CleanupItemView, c: CleanupItemView)
    ensures
        !key_lt(a, a),
        key_lt(a, b) ==> !key_lt(b, a),
        key_lt(a, b) && key_lt(b, c) ==> key_lt(a, c),
        key_eq(a, b) || key_lt(a, b) || key_lt(b, a),
        key_eq(a, b) ==> !key_lt(a, b),
{
    lemma_lt_irrefl(a.name);
    lemma_lt_irrefl(a.version);
    if let Some(x) = a.arch {
        lemma_lt_irrefl(x);
    }
    lemma_lt_asym(a.name, b.name);
    lemma_lt_asym(a.version, b.version);
    lemma_lt_total(a.name, b.name);
    lemma_lt_total(a.version, b.version);
    if a.name == b.name {
        lemma_lt_irrefl(b.name);
    }
    if let (Some(x), Some(y)) = (a.arch, b.arch) {
        lemma_lt_irrefl(x);
        lemma_lt_asym(x, y);
        lemma_lt_total(x, y);
    }
    if key_lt(a, b) && key_lt(b, c) {
        if seq_lt(a.name, b.name) && seq_lt(b.name, c.name) {
            lemma_lt_trans(a.name, b.name, c.name);
        }
        if a.name == b.name && b.name == c.name {
            if let (Some(x), Some(y), Some(z)) = (a.arch, b.arch, c.arch) {
                if seq_lt(x, y) && seq_lt(y, z) {
                    lemma_lt_trans(x, y, z);
                }
            }
            if a.arch == b.arch && b.arch == c.arch {
                lemma_lt_trans(a.version, b.version, c.version);
            }
        }
    }
}

fn opt_chars(o: &Option<String>) -> (r: Option<Vec<char>>)
    ensures
        match r {
            Some(v) => opt_view(*o) == Some(v@),
            None => o is None,
        },
{
    match o {
        Some(s) => Some(chars_of(s.as_str())),
        None => None,
    }
}

fn items_key_lt(a: &CleanupItem, b: &CleanupItem) -> (r: bool)
    ensures
        r == key_lt(a@, b@),
{
    let an = chars_of(a.name.as_str());
    let bn = chars_of(b.name.as_str());
    if chars_lt(&an, &bn) {
        return true;
    }
    if !chars_eq(&an, &bn) {
        return false;
    }
    let aa = opt_chars(&a.arch);
    let ba = opt_chars(&b.arch);
    match (&aa, &ba) {
        (None, Some(_)) => return true,
        (Some(x), Some(y)) => {
            if chars_lt(x, y) {
                return true;
            }
            if !chars_eq(x, y) {
                return false;
            }
        },
        (Some(_), None) => return false,
        (None, None) => {},
    }
    let av = chars_of(a.version.as_str());
    let bv = chars_of(b.version.as_str());
    chars_lt(&av, &bv)
}

fn items_key_eq(a: &CleanupItem, b: &CleanupItem) -> (r: bool)
    ensures
        r == key_eq(a@, b@),
{
    let an = chars_of(a.name.as_str());
    let bn = chars_of(b.name.as_str());
    let av = chars_of(a.version.as_str());
    let bv = chars_of(b.version.as_str());
    let aa = opt_chars(&a.arch);
    let ba = opt_chars(&b.arch);
    let arch_eq = match (&aa, &ba) {
        (Some(x), Some(y)) => chars_eq(x, y),
        (None, None) => true,
        _ => false,
    };
    chars_eq(&an, &bn) && arch_eq && chars_eq(&av, &bv)
}

#[verifier::opaque]
pub open spec fn keys_sorted(r: Seq<CleanupItemView>) -> bool {
    forall|i: int, j: int| 0 <= i < j < r.len() ==> key_lt(#[trigger] r[i], #[trigger] r[j])
}

/// No runtime before position `k` of `items` has the key of `items[k]`.
pub open spec fn first_listed(items: Seq<CleanupItemView>, k: int) -> bool {
    forall|m: int| 0 <= m && m < k ==> !key_eq(#[trigger] items[m], items[k])
}

/// Entry `i` of `r` is the first listing of its runtime among the first `n` items.
pub open spec fn taken_at(r: Seq<CleanupItemView>, items: Seq<CleanupItemView>, n: int, i: int) -> bool {
    exists|k: int| 0 <= k && k < n && r[i] == #[trigger] items[k] && first_listed(items, k)
}

/// Every entry of `r` is the first listing of its runtime among the first `n` items.
pub open spec fn taken_from(r: Seq<CleanupItemView>, items: Seq<CleanupItemView>, n: int) -> bool {
    forall|i: int| 0 <= i && i < r.len() ==> #[trigger] taken_at(r, items, n, i)
}

/// The runtime of `items[k]` has an entry in `r`.
pub open spec fn covered_at(r: Seq<CleanupItemView>, items: Seq<CleanupItemView>, k: int) -> bool {
    exists|i: int| 0 <= i && i < r.len() && key_eq(#[trigger] r[i], items[k])
}

/// Every runtime among the first `n` items has an entry in `r`.
pub open spec fn covers(r: Seq<CleanupItemView>, items: Seq<CleanupItemView>, n: int) -> bool {
    forall|k: int| 0 <= k && k < n ==> #[trigger] covered_at(r, items, k)
}

/// `src[i]` is the position in `items` that entry `i` of `r` was taken from.
pub open spec fn sources_ok(
    r: Seq<CleanupItemView>,
    items: Seq<CleanupItemView>,
    n: int,
    src: Seq<int>,
) -> bool {
    &&& src.len() == r.len()
    &&& forall|i: int|
        #![trigger src[i]]
        0 <= i && i < r.len() ==> 0 <= src[i] && src[i] < n && r[i] == items[src[i]] && first_listed(
            items,
            src[i],
        )
}

/// `at[k]` is the entry of `r` with the key of `items[k]`.
pub open spec fn places_ok(
    r: Seq<CleanupItemView>,
    items: Seq<CleanupItemView>,
    n: int,
    at: Seq<int>,
) -> bool {
    &&& at.len() == n
    &&& forall|k: int|
        #![trigger at[k]]
        0 <= k && k < n ==> 0 <= at[k] && at[k] < r.len() && key_eq(r[at[k]], items[k])
}

proof fn lemma_witnessed(
    r: Seq<CleanupItemView>,
    items: Seq<CleanupItemView>,
    n: int,
    src: Seq<int>,
    at: Seq<int>,
)
    requires
        sources_ok(r, items, n, src),
        places_ok(r, items, n, at),
    ensures
        taken_from(r, items, n),
        covers(r, items, n),
{
    assert forall|i: int| 0 <= i && i < r.len() implies #[trigger] taken_at(r, items, n, i) by {
        let k = src[i];
        assert(0 <= k && k < n && r[i] == items[k] && first_listed(items, k));
    }
    assert forall|k: int| 0 <= k && k < n implies #[trigger] covered_at(r, items, k) by {
        let i = at[k];
        assert(0 <= i && i < r.len() && key_eq(r[i], items[k]));
    }
}

proof fn lemma_insert_sorted(old_r: Seq<CleanupItemView>, x: CleanupItemView, pos: int)
    requires
        0 <= pos <= old_r.len(),
        keys_sorted(old_r),
        forall|i: int| 0 <= i < pos ==> key_lt(#[trigger] old_r[i], x),
        pos < old_r.len() ==> !key_lt(old_r[pos], x) && !key_eq(old_r[pos], x),
    ensures
        keys_sorted(old_r.insert(pos, x)),
        forall|i: int| 0 <= i < old_r.len() ==> !key_eq(#[trigger] old_r[i], x),
{
    reveal(keys_sorted);
    let r = old_r.insert(pos, x);
    assert forall|i: int| pos <= i < old_r.len() implies key_lt(x, #[trigger] old_r[i]) by {
        lemma_key_order(x, old_r[pos], old_r[i]);
        lemma_key_order(old_r[pos], x, old_r[i]);
        if i > pos {
            assert(key_lt(old_r[pos], old_r[i]));
        }
    }
    assert forall|i: int| 0 <= i < old_r.len() implies !key_eq(#[trigger] old_r[i], x) by {
        lemma_key_order(old_r[i], x, x);
        lemma_key_order(x, old_r[i], x);
        if i < pos {
            assert(key_lt(old_r[i], x));
        } else {
            assert(key_lt(x, old_r[i]));
        }
    }
    assert forall|i: int, j: int| 0 <= i < j < r.len() implies key_lt(
        #[trigger] r[i],
        #[trigger] r[j],
    ) by {
        if j < pos {
            assert(r[i] == old_r[i] && r[j] == old_r[j]);
        } else if j == pos {
            assert(r[i] == old_r[i] && r[j] == x);
        } else if i == pos {
            assert(r[i] == x && r[j] == old_r[j - 1]);
        } else if i < pos {
            assert(r[i] == old_r[i] && r[j] == old_r[j - 1]);
            lemma_key_order(old_r[i], x, old_r[j - 1]);
        } else {
            assert(r[i] == old_r[i - 1] && r[j] == old_r[j - 1]);
        }
    }
}

pub open spec fn shift_from(at: Seq<int>, pos: int) -> Seq<int> {
    Seq::new(at.len(), |k: int| if at[k] >= pos { at[k] + 1 } else { at[k] })
}

proof fn lemma_dedupe_insert(
    old_r: Seq<CleanupItemView>,
    items: Seq<CleanupItemView>,
    n: int,
    pos: int,
    src: Seq<int>,
    at: Seq<int>,
)
    requires
        0 <= n < items.len(),
        0 <= pos <= old_r.len(),
        keys_sorted(old_r),
        sources_ok(old_r, items, n, src),
        places_ok(old_r, items, n, at),
        forall|i: int| 0 <= i < pos ==> key_lt(#[trigger] old_r[i], items[n]),
        pos < old_r.len() ==> !key_lt(old_r[pos], items[n]) && !key_eq(old_r[pos], items[n]),
    ensures
        keys_sorted(old_r.insert(pos, items[n])),
        sources_ok(old_r.insert(pos, items[n]), items, n + 1, src.insert(pos, n)),
        places_ok(old_r.insert(pos, items[n]), items, n + 1, shift_from(at, pos).push(pos)),
{
    let x = items[n];
    let r = old_r.insert(pos, x);
    lemma_insert_sorted(old_r, x, pos);
    assert(first_listed(items, n)) by {
        assert forall|m: int| 0 <= m < n implies !key_eq(#[trigger] items[m], items[n]) by {
            let i = at[m];
            assert(key_eq(old_r[i], items[m]));
            assert(!key_eq(old_r[i], x));
        }
    }
    let src2 = src.insert(pos, n);
    assert forall|i: int| #![trigger src2[i]] 0 <= i < r.len() implies 0 <= src2[i] < n + 1
        && r[i] == items[src2[i]] && first_listed(items, src2[i]) by {
        if i < pos {
            assert(r[i] == old_r[i] && src2[i] == src[i]);
        } else if i > pos {
            assert(r[i] == old_r[i - 1] && src2[i] == src[i - 1]);
        } else {
            assert(r[i] == x && src2[i] == n);
        }
    }
    let at2 = shift_from(at, pos).push(pos);
    assert forall|k: int| #![trigger at2[k]] 0 <= k < n + 1 implies 0 <= at2[k] < r.len()
        && key_eq(r[at2[k]], items[k]) by {
        if k == n {
            assert(r[pos] == x);
        } else {
            let i = at[k];
            if i < pos {
                assert(at2[k] == i && r[i] == old_r[i]);
            } else {
                assert(at2[k] == i + 1 && r[i + 1] == old_r[i]);
            }
        }
    }
}

/// Each runtime once, ordered by name, arch and branch; of runtimes listed more than
/// once (in both installations), the first listed is kept.
pub fn dedupe_runtimes(items: Vec<CleanupItem>) -> (r: Vec<CleanupItem>)
    ensures
        keys_sorted(item_views(r@)),
        taken_from(item_views(r@), item_views(items@), items@.len() as int),
        covers(item_views(r@), item_views(items@), items@.len() as int),
{
    let mut r: Vec<CleanupItem> = Vec::new();
    let mut n: usize = 0;
    let ghost mut src: Seq<int> = Seq::empty();
    let ghost mut at: Seq<int> = Seq::empty();
    let ghost ivs = item_views(items@);
    proof {
        reveal(keys_sorted);
    }
    while n < items.len()
        invariant
            0 <= n <= items.len(),
            ivs == item_views(items@),
            keys_sorted(item_views(r@)),
            sources_ok(item_views(r@), ivs, n as int, src),
            places_ok(item_views(r@), ivs, n as int, at),
        decreases items.len() - n,
    {
        let x = &items[n];
        let ghost vs = item_views(r@);
        proof {
            assert(ivs[n as int] == x@);
        }
        let mut pos: usize = 0;
        while pos < r.len() && items_key_lt(&r[pos], x)
            invariant
                0 <= pos <= r@.len(),
                vs == item_views(r@),
                forall|i: int| 0 <= i < pos ==> key_lt(#[trigger] vs[i], x@),
            decreases r.len() - pos,
        {
            proof {
                assert(vs[pos as int] == r@[pos as int]@);
            }
            pos = pos + 1;
        }
        proof {
            if pos < r.len() {
                assert(vs[pos as int] == r@[pos as int]@);
            }
        }
        if pos < r.len() && items_key_eq(&r[pos], x) {
            proof {
                let at2 = at.push(pos as int);
                assert forall|k: int| #![trigger at2[k]] 0 <= k < n + 1 implies 0 <= at2[k]
                    < vs.len() && key_eq(vs[at2[k]], ivs[k]) by {
                    if k < n {
                        assert(at2[k] == at[k]);
                    }
                }
                at = at2;
            }
        } else {
            proof {
                lemma_dedupe_insert(vs, ivs, n as int, pos as int, src, at);
                src = src.insert(pos as int, n as int);
                at = shift_from(at, pos as int).push(pos as int);
            }
            let c = items[n].clone();
            r.insert(pos, c);
            proof {
                assert(item_views(r@) =~= vs.insert(pos as int, ivs[n as int]));
            }
        }
        n = n + 1;
    }
    proof {
        lemma_witnessed(item_views(r@), ivs, n as int, src, at);
    }
    r
}

/// Whether the runtime `item` is among `installed_unused` (by name, arch and branch).
pub open spec fn is_listed_spec(installed_unused: Seq<CleanupItem>, item: CleanupItemView) -> bool {
    exists|k: int| 0 <= k < installed_unused.len() && key_eq(#[trigger] installed_unused[k]@, item)
}

pub fn is_listed(installed_unused: &[CleanupItem], item: &CleanupItem) -> (r: bool)
    ensures
        r == is_listed_spec(installed_unused@, item@),
{
    let mut i: usize = 0;
    while i < installed_unused.len()
        invariant
            0 <= i <= installed_unused.len(),
            forall|k: int| 0 <= k < i ==> !key_eq(#[trigger] installed_unused@[k]@, item@),
        decreases installed_unused.len() - i,
    {
        if items_key_eq(&installed_unused[i], item) {
            return true;
        }
        i = i + 1;
    }
    false
}

/// `name/arch/branch`, the reference `flatpak uninstall` takes.
pub open spec fn flatpak_ref_spec(item: CleanupItemView) -> Seq<char> {
    item.name + "/"@ + (match item.arch {
        Some(a) => a,
        None => Seq::<char>::empty(),
    }) + "/"@ + item.version
}

pub fn flatpak_ref(item: &CleanupItem) -> (r: String)
    ensures
        r@ == flatpak_ref_spec(item@),
{
    let mut v = chars_of(item.name.as_str());
    crate::text::push_str(&mut v, "/");
    match &item.arch {
        Some(a) => crate::text::push_str(&mut v, a.as_str()),
        None => {},
    }
    crate::text::push_str(&mut v, "/");
    crate::text::push_str(&mut v, item.version.as_str());
    proof {
        let e = Seq::<char>::empty();
        if item.arch is None {
            assert(item@.name + "/"@ + e =~= item@.name + "/"@);
        }
    }
    string_of(&v)
}

/// The references of the unused runtimes among `items` that each installation
/// still lists as unused, in the order of `items`.
pub open spec fn refs_in(items: Seq<CleanupItem>, listed: Seq<CleanupItem>) -> Seq<Seq<char>>
    decreases items.len(),
{
    if items.len() == 0 {
        Seq::<Seq<char>>::empty()
    } else {
        let r = refs_in(items.drop_last(), listed);
        let it = items.last();
        if it.kind == CleanupKind::UnusedRuntime && is_listed_spec(listed, it@) {
            r.push(flatpak_ref_spec(it@))
        } else {
            r
        }
    }
}

pub fn partition_refs(
    items: &[CleanupItem],
    system_unused: &[CleanupItem],
    user_unused: &[CleanupItem],
) -> (r: (Vec<String>, Vec<String>))
    ensures
        crate::package::string_views(r.0@) == refs_in(items@, system_unused@),
        crate::package::string_views(r.1@) == refs_in(items@, user_unused@),
{
    let mut system: Vec<String> = Vec::new();
    let mut user: Vec<String> = Vec::new();
    let mut i: usize = 0;
    proof {
        assert(items@.take(0) =~= Seq::<CleanupItem>::empty());
        assert(crate::package::string_views(system@) =~= Seq::<Seq<char>>::empty());
        assert(crate::package::string_views(user@) =~= Seq::<Seq<char>>::empty());
    }
    while i < items.len()
        invariant
            0 <= i <= items.len(),
            crate::package::string_views(system@) == refs_in(items@.take(i as int), system_unused@),
            crate::package::string_views(user@) == refs_in(items@.take(i as int), user_unused@),
        decreases items.len() - i,
    {
        proof {
            assert(items@.take(i + 1).drop_last() =~= items@.take(i as int));
        }
        let item = &items[i];
        if item.kind == CleanupKind::UnusedRuntime {
            if is_listed(system_unused, item) {
                let s = flatpak_ref(item);
                proof {
                    crate::package::lemma_string_views_push(system@, s);
                }
                system.push(s);
            }
            if is_listed(user_unused, item) {
                let s = flatpak_ref(item);
                proof {
                    crate::package::lemma_string_views_push(user@, s);
                }
                user.push(s);
            }
        }
        i = i + 1;
    }
    proof {
        assert(items@.take(items@.len() as int) =~= items@);
    }
    (system, user)
}

/// The flatpak arch name of a Rust arch name, when `flatpak --default-arch` is silent.
pub fn fallback_arch(rust_arch: &str) -> (r: &str)
    ensures
        r@ == (if rust_arch@ == "x86"@ {
            "i386"@
        } else {
            rust_arch@
        }),
{
    let v = chars_of(rust_arch);
    if eq_str(&v, "x86") {
        "i386"
    } else {
        rust_arch
    }
}

// ---------------------------------------------------------------------------
// Application IDs.
// ---------------------------------------------------------------------------

/// A name with a dot is taken as an application ID as it is.
pub fn is_app_id(package: &str) -> (r: bool)
    ensures
        r == package@.contains('.'),
{
    let v = chars_of(package);
    let mut i: usize = 0;
    while i < v.len()
        invariant
            i <= v.len(),
            v@ == package@,
            forall|j: int| 0 <= j < i ==> v@[j] != '.',
        decreases v.len() - i,
    {
        if v[i] == '.' {
            proof {
                assert(package@[i as int] == '.');
            }
            return true;
        }
        i = i + 1;
    }
    false
}

/// The first search result whose lowercased name contains the lowercased name asked
/// for.
pub open spec fn first_match(package: Seq<char>, results: Seq<PackageView>) -> Option<int>
    decreases results.len(),
{
    if results.len() == 0 {
        None
    } else if crate::lists::lower_contains(results[0].name, unicode_lower(package)) {
        Some(0)
    } else {
        match first_match(package, results.skip(1)) {
            Some(i) => Some(i + 1),
            None => None,
        }
    }
}

/// The application ID of a name that is not one, from the search results for it: the
/// name of the first result that contains it, letters compared in lower case.
pub fn app_id_from_results(package: &str, results: &[Package]) -> (r: Result<String, PikeError>)
    ensures
        match first_match(package@, package_views(results@)) {
            Some(i) => r matches Ok(id) && id@ == results@[i].name@,
            None => r matches Err(PikeError::NotFound { name, source_name }) && name@ == package@
                && source_name@ == "flatpak"@,
        },
{
    let ghost rv = package_views(results@);
    let query = to_lowercase(&chars_of(package));
    let mut i: usize = 0;
    proof {
        assert(rv.skip(0) =~= rv);
    }
    while i < results.len()
        invariant
            i <= results.len(),
            rv == package_views(results@),
            query@ == unicode_lower(package@),
            first_match(package@, rv) == match first_match(package@, rv.skip(i as int)) {
                Some(k) => Some(k + i),
                None => None::<int>,
            },
        decreases results.len() - i,
    {
        proof {
            assert(rv.skip(i as int)[0] == results@[i as int]@);
            assert(rv.skip(i as int).skip(1) =~= rv.skip(i + 1));
        }
        let lower = to_lowercase(&chars_of(results[i].name.as_str()));
        if contains_chars(&lower, &query) {
            return Ok(results[i].name.clone());
        }
        i = i + 1;
    }
    Err(PikeError::NotFound { name: string_of(&chars_of(package)), source_name: string_of(&chars_of("flatpak")) })
}

} // verus!
