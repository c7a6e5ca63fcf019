//! Reading `apt` and `dpkg` output: search results, upgrades, installed packages,
//! repositories, removal simulations, installed sizes and kernel packages.
use vstd::prelude::*;

use crate::cleanup::{items_of_kind, kept_kernels, kernel_views, old_kernel_items, old_kernels, removal_list, strictly_sorted, KernelEntry, KernelNaming};
use crate::package::{lemma_string_views_push, str_views, string_views};
use crate::source::{item_names, item_versions};
use crate::package::{item_views, lemma_item_views_push, CleanupItem, CleanupItemView, CleanupKind, lemma_package_views_push, lemma_repository_views_push, lemma_update_views_push, package_views, repository_views, update_views, Package, PackageUpdate, PackageUpdateView, PackageView, Repository, RepositoryView, SourceType};
use crate::text::{ascii_lower, ascii_lower_chars, chars_eq, chars_of, copy_range, eq_str, filter_map, find_ch, find_char, has_prefix, join, join_chars, lemma_find_char, lemma_views_push, lines, lines_of, nonempty, split, split_ch, split_once, split_once_ch, split_once_char, split_once_str, split_pat, split_pat_chars, split_ws, split_ws_chars, starts_with, string_of, trim, trim_chars, views, ends_with, has_suffix, is_digit, parse_u64, parse_u64_chars, contains, split_once_chars};
use crate::assoc::{assoc_insert, assoc_insert_new, keys_distinct, pair_views, pairs_map};

verus! {

// ---------------------------------------------------------------------------
// `apt-cache search`.
// ---------------------------------------------------------------------------

/// `name - description`.
pub open spec fn search_line(l: Seq<char>) -> Option<PackageView> {
    match split_once(l, " - "@) {
        Some((n, d)) => Some(
            PackageView {
                name: trim(n),
                display_name: None,
                version: Seq::<char>::empty(),
                source: SourceType::Apt,
                arch: None,
                description: Some(trim(d)),
            },
        ),
        None => None,
    }
}

pub open spec fn search_lines(ls: Seq<Seq<char>>) -> Seq<PackageView> {
    filter_map(ls, |l: Seq<char>| search_line(l))
}

fn search_row(l: &[char]) -> (r: Option<Package>)
    ensures
        match r {
            Some(p) => search_line(l@) == Some(p@),
            None => search_line(l@) is None,
        },
{
    match split_once_str(l, " - ") {
        Some((n, d)) => {
            let e: Vec<char> = Vec::new();
            let tn = trim_chars(&n);
            let td = trim_chars(&d);
            Some(
                Package {
                    name: string_of(&tn),
                    display_name: None,
                    version: string_of(&e),
                    source: SourceType::Apt,
                    arch: None,
                    description: Some(string_of(&td)),
                },
            )
        },
        None => None,
    }
}

/// Search results, one `name - description` line each.
pub fn parse_search_output(output: &str) -> (r: Vec<Package>)
    ensures
        package_views(r@) == search_lines(lines(output@)),
{
    let text = chars_of(output);
    let ls = lines_of(&text);
    let mut r: Vec<Package> = Vec::new();
    let mut i: usize = 0;
    proof {
        assert(views(ls@).take(0) =~= Seq::<Seq<char>>::empty());
        assert(package_views(r@) =~= Seq::<PackageView>::empty());
    }
    while i < ls.len()
        invariant
            0 <= i <= ls.len(),
            views(ls@) == lines(output@),
            package_views(r@) == search_lines(views(ls@).take(i as int)),
        decreases ls.len() - i,
    {
        proof {
            assert(views(ls@).take(i + 1).drop_last() =~= views(ls@).take(i as int));
            assert(views(ls@).take(i + 1).last() == ls@[i as int]@);
        }
        match search_row(&ls[i]) {
            Some(p) => {
                proof {
                    lemma_package_views_push(r@, p);
                }
                r.push(p);
            },
            None => {},
        }
        i = i + 1;
    }
    proof {
        assert(views(ls@).take(ls@.len() as int) =~= views(ls@));
    }
    r
}

// ---------------------------------------------------------------------------
// `apt-get -s upgrade`.
// ---------------------------------------------------------------------------

/// `[installed] rest` gives the installed version and the trimmed rest; without a
/// bracket the installed version is empty.
pub open spec fn installed_part(rem: Seq<char>) -> Option<(Seq<char>, Seq<char>)> {
    if rem.len() > 0 && rem[0] == '[' {
        match find_char(rem, ']') {
            Some(e) => Some((rem.subrange(1, e), trim(rem.skip(e + 1)))),
            None => None,
        }
    } else {
        Some((Seq::<char>::empty(), rem))
    }
}

/// What stands between `(` and the first `)`.
pub open spec fn paren_inner(p: Seq<char>) -> Option<Seq<char>> {
    if p.len() > 0 && p[0] == '(' {
        match find_char(p, ')') {
            Some(e) => Some(p.subrange(1, e)),
            None => None,
        }
    } else {
        None
    }
}

/// `[arch]` without its brackets.
pub open spec fn bracketed(s: Seq<char>) -> Option<Seq<char>> {
    if s.len() >= 2 && s[0] == '[' && s.last() == ']' {
        Some(s.subrange(1, s.len() - 1))
    } else {
        None
    }
}

/// `Inst name [installed] (available origin [arch])`.
pub open spec fn inst_line(l: Seq<char>) -> Option<PackageUpdateView> {
    if !starts_with(l, "Inst "@) {
        None
    } else {
        match split_once_char(l.skip(5), ' ') {
            None => None,
            Some((name, rem)) => match installed_part(rem) {
                None => None,
                Some((installed, paren)) => match paren_inner(paren) {
                    None => None,
                    Some(inner) => {
                        let parts = split_ws(inner);
                        if parts.len() == 0 {
                            None
                        } else {
                            Some(
                                PackageUpdateView {
                                    name,
                                    source: SourceType::Apt,
                                    arch: bracketed(parts.last()),
                                    installed_version: installed,
                                    available_version: parts[0],
                                },
                            )
                        }
                    },
                },
            },
        }
    }
}

pub open spec fn inst_lines(ls: Seq<Seq<char>>) -> Seq<PackageUpdateView> {
    filter_map(ls, |l: Seq<char>| inst_line(l))
}

fn installed_part_of(rem: &[char]) -> (r: Option<(Vec<char>, Vec<char>)>)
    ensures
        match r {
            Some((a, b)) => installed_part(rem@) == Some((a@, b@)),
            None => installed_part(rem@) is None,
        },
{
    if rem.len() > 0 && rem[0] == '[' {
        match find_ch(rem, ']') {
            Some(e) => {
                proof {
                    lemma_find_char(rem@, ']');
                }
                let a = copy_range(rem, 1, e);
                let after = copy_range(rem, e + 1, rem.len());
                proof {
                    assert(after@ =~= rem@.skip(e + 1));
                }
                let b = trim_chars(&after);
                Some((a, b))
            },
            None => None,
        }
    } else {
        let a: Vec<char> = Vec::new();
        let b = copy_range(rem, 0, rem.len());
        proof {
            assert(b@ =~= rem@);
        }
        Some((a, b))
    }
}

fn paren_inner_of(p: &[char]) -> (r: Option<Vec<char>>)
    ensures
        match r {
            Some(a) => paren_inner(p@) == Some(a@),
            None => paren_inner(p@) is None,
        },
{
    if p.len() > 0 && p[0] == '(' {
        match find_ch(p, ')') {
            Some(e) => {
                proof {
                    lemma_find_char(p@, ')');
                }
                Some(copy_range(p, 1, e))
            },
            None => None,
        }
    } else {
        None
    }
}

fn bracketed_of(s: &[char]) -> (r: Option<String>)
    ensures
        match r {
            Some(a) => bracketed(s@) == Some(a@),
            None => bracketed(s@) is None,
        },
{
    if s.len() >= 2 && s[0] == '[' && s[s.len() - 1] == ']' {
        let a = copy_range(s, 1, s.len() - 1);
        Some(string_of(&a))
    } else {
        None
    }
}

fn inst_row(l: &[char]) -> (r: Option<PackageUpdate>)
    ensures
        match r {
            Some(u) => inst_line(l@) == Some(u@),
            None => inst_line(l@) is None,
        },
{
    if !has_prefix(l, "Inst ") {
        return None;
    }
    proof {
        reveal_strlit("Inst ");
    }
    let rest = copy_range(l, 5, l.len());
    proof {
        assert(rest@ =~= l@.skip(5));
    }
    let (name, rem) = match split_once_ch(&rest, ' ') {
        Some(p) => p,
        None => return None,
    };
    let (installed, paren) = match installed_part_of(&rem) {
        Some(p) => p,
        None => return None,
    };
    let inner = match paren_inner_of(&paren) {
        Some(x) => x,
        None => return None,
    };
    let parts = split_ws_chars(&inner);
    if parts.len() == 0 {
        return None;
    }
    proof {
        assert(views(parts@)[0] == parts@[0]@);
        assert(views(parts@).last() == parts@[parts@.len() - 1]@);
    }
    let arch = bracketed_of(&parts[parts.len() - 1]);
    Some(
        PackageUpdate {
            name: string_of(&name),
            source: SourceType::Apt,
            arch,
            installed_version: string_of(&installed),
            available_version: string_of(&parts[0]),
        },
    )
}

/// Upgrades of `apt-get -s upgrade`: its `Inst` lines.
pub fn parse_check_updates_output(output: &str) -> (r: Vec<PackageUpdate>)
    ensures
        update_views(r@) == inst_lines(lines(output@)),
{
    let text = chars_of(output);
    let ls = lines_of(&text);
    let mut r: Vec<PackageUpdate> = Vec::new();
    let mut i: usize = 0;
    proof {
        assert(views(ls@).take(0) =~= Seq::<Seq<char>>::empty());
        assert(update_views(r@) =~= Seq::<PackageUpdateView>::empty());
    }
    while i < ls.len()
        invariant
            0 <= i <= ls.len(),
            views(ls@) == lines(output@),
            update_views(r@) == inst_lines(views(ls@).take(i as int)),
        decreases ls.len() - i,
    {
        proof {
            assert(views(ls@).take(i + 1).drop_last() =~= views(ls@).take(i as int));
            assert(views(ls@).take(i + 1).last() == ls@[i as int]@);
        }
        match inst_row(&ls[i]) {
            Some(u) => {
                proof {
                    lemma_update_views_push(r@, u);
                }
                r.push(u);
            },
            None => {},
        }
        i = i + 1;
    }
    proof {
        assert(views(ls@).take(ls@.len() as int) =~= views(ls@));
    }
    r
}

// ---------------------------------------------------------------------------
// `dpkg-query -W -f '${Package}\t${Version}\t${Architecture}\t${binary:Summary}\n'`.
// ---------------------------------------------------------------------------

pub open spec fn installed_line(l: Seq<char>) -> Option<PackageView> {
    let f = split(l, '\t');
    if f.len() < 3 {
        None
    } else {
        Some(
            PackageView {
                name: f[0],
                display_name: None,
                version: f[1],
                source: SourceType::Apt,
                arch: Some(f[2]),
                description: if f.len() > 3 && trim(f[3]).len() > 0 {
                    Some(trim(f[3]))
                } else {
                    None
                },
            },
        )
    }
}

pub open spec fn installed_lines(ls: Seq<Seq<char>>) -> Seq<PackageView> {
    filter_map(ls, |l: Seq<char>| installed_line(l))
}

fn installed_row(l: &[char]) -> (r: Option<Package>)
    ensures
        match r {
            Some(p) => installed_line(l@) == Some(p@),
            None => installed_line(l@) is None,
        },
{
    let f = split_ch(l, '\t');
    if f.len() < 3 {
        return None;
    }
    proof {
        assert(views(f@)[0] == f@[0]@ && views(f@)[1] == f@[1]@ && views(f@)[2] == f@[2]@);
    }
    let description = if f.len() > 3 {
        proof {
            assert(views(f@)[3] == f@[3]@);
        }
        let t = trim_chars(&f[3]);
        if t.len() > 0 {
            Some(string_of(&t))
        } else {
            None
        }
    } else {
        None
    };
    Some(
        Package {
            name: string_of(&f[0]),
            display_name: None,
            version: string_of(&f[1]),
            source: SourceType::Apt,
            arch: Some(string_of(&f[2])),
            description,
        },
    )
}

/// Installed packages, one tab-separated line each.
pub fn parse_list_installed_output(output: &str) -> (r: Vec<Package>)
    ensures
        package_views(r@) == installed_lines(lines(output@)),
{
    let text = chars_of(output);
    let ls = lines_of(&text);
    let mut r: Vec<Package> = Vec::new();
    let mut i: usize = 0;
    proof {
        assert(views(ls@).take(0) =~= Seq::<Seq<char>>::empty());
        assert(package_views(r@) =~= Seq::<PackageView>::empty());
    }
    while i < ls.len()
        invariant
            0 <= i <= ls.len(),
            views(ls@) == lines(output@),
            package_views(r@) == installed_lines(views(ls@).take(i as int)),
        decreases ls.len() - i,
    {
        proof {
            assert(views(ls@).take(i + 1).drop_last() =~= views(ls@).take(i as int));
            assert(views(ls@).take(i + 1).last() == ls@[i as int]@);
        }
        match installed_row(&ls[i]) {
            Some(p) => {
                proof {
                    lemma_package_views_push(r@, p);
                }
                r.push(p);
            },
            None => {},
        }
        i = i + 1;
    }
    proof {
        assert(views(ls@).take(ls@.len() as int) =~= views(ls@));
    }
    r
}

// ---------------------------------------------------------------------------
// One-line sources (`deb uri suite components`).
// ---------------------------------------------------------------------------

pub open spec fn sources_line(l: Seq<char>) -> Option<RepositoryView> {
    let t = trim(l);
    let parts = split_ws(l);
    if t.len() == 0 || starts_with(t, "#"@) || !starts_with(t, "deb "@) || parts.len() < 2 {
        None
    } else {
        Some(
            RepositoryView {
                id: join(parts.skip(1), " "@),
                name: parts[1],
                source: SourceType::Apt,
                enabled: true,
                url: Some(parts[1]),
            },
        )
    }
}

pub open spec fn sources_lines(ls: Seq<Seq<char>>) -> Seq<RepositoryView> {
    filter_map(ls, |l: Seq<char>| sources_line(l))
}

fn sources_row(l: &[char]) -> (r: Option<Repository>)
    ensures
        match r {
            Some(x) => sources_line(l@) == Some(x@),
            None => sources_line(l@) is None,
        },
{
    let t = trim_chars(l);
    let parts = split_ws_chars(l);
    if t.len() == 0 || has_prefix(&t, "#") || !has_prefix(&t, "deb ") || parts.len() < 2 {
        return None;
    }
    let mut tail: Vec<Vec<char>> = Vec::new();
    let mut i: usize = 1;
    proof {
        assert(views(tail@) =~= views(parts@).subrange(1, 1));
    }
    while i < parts.len()
        invariant
            1 <= i <= parts.len(),
            views(tail@) == views(parts@).subrange(1, i as int),
        decreases parts.len() - i,
    {
        let c = copy_range(&parts[i], 0, parts[i].len());
        proof {
            assert(c@ =~= parts@[i as int]@);
            lemma_views_push(tail@, c);
            assert(views(parts@).subrange(1, i + 1) =~= views(parts@).subrange(1, i as int).push(
                parts@[i as int]@,
            ));
        }
        tail.push(c);
        i = i + 1;
    }
    proof {
        assert(views(parts@).subrange(1, parts@.len() as int) =~= views(parts@).skip(1));
        assert(views(parts@)[1] == parts@[1]@);
    }
    let id = join_chars(&tail, " ");
    Some(
        Repository {
            id: string_of(&id),
            name: string_of(&parts[1]),
            source: SourceType::Apt,
            enabled: true,
            url: Some(string_of(&parts[1])),
        },
    )
}

/// Repositories of one-line `deb` entries; comments and `deb-src` lines are skipped.
pub fn parse_sources_list(output: &str) -> (r: Vec<Repository>)
    ensures
        repository_views(r@) == sources_lines(lines(output@)),
{
    let text = chars_of(output);
    let ls = lines_of(&text);
    let mut r: Vec<Repository> = Vec::new();
    let mut i: usize = 0;
    proof {
        assert(views(ls@).take(0) =~= Seq::<Seq<char>>::empty());
        assert(repository_views(r@) =~= Seq::<RepositoryView>::empty());
    }
    while i < ls.len()
        invariant
            0 <= i <= ls.len(),
            views(ls@) == lines(output@),
            repository_views(r@) == sources_lines(views(ls@).take(i as int)),
        decreases ls.len() - i,
    {
        proof {
            assert(views(ls@).take(i + 1).drop_last() =~= views(ls@).take(i as int));
            assert(views(ls@).take(i + 1).last() == ls@[i as int]@);
        }
        match sources_row(&ls[i]) {
            Some(x) => {
                proof {
                    lemma_repository_views_push(r@, x);
                }
                r.push(x);
            },
            None => {},
        }
        i = i + 1;
    }
    proof {
        assert(views(ls@).take(ls@.len() as int) =~= views(ls@));
    }
    r
}

// ---------------------------------------------------------------------------
// deb822 sources (`.sources` files).
// ---------------------------------------------------------------------------

/// The fields of a deb822 stanza that name repositories.
pub struct Deb822Fields {
    pub types: Seq<char>,
    pub uris: Seq<char>,
    pub suites: Seq<char>,
    pub components: Seq<char>,
    pub enabled: bool,
}

/// A field line changes the field it names (keys are read without regard to case);
/// blank lines and comments change nothing.
pub open spec fn apply_field(f: Deb822Fields, raw: Seq<char>) -> Deb822Fields {
    let line = trim(raw);
    let lower = ascii_lower(line);
    if line.len() == 0 || starts_with(line, "#"@) {
        f
    } else if starts_with(lower, "types:"@) {
        Deb822Fields { types: trim(line.skip(6)), ..f }
    } else if starts_with(lower, "uris:"@) {
        Deb822Fields { uris: trim(line.skip(5)), ..f }
    } else if starts_with(lower, "suites:"@) {
        Deb822Fields { suites: trim(line.skip(7)), ..f }
    } else if starts_with(lower, "components:"@) {
        Deb822Fields { components: trim(line.skip(11)), ..f }
    } else if starts_with(lower, "enabled:"@) {
        Deb822Fields { enabled: trim(line.skip(8)) != "no"@, ..f }
    } else {
        f
    }
}

pub open spec fn stanza_fields(ls: Seq<Seq<char>>) -> Deb822Fields
    decreases ls.len(),
{
    if ls.len() == 0 {
        Deb822Fields {
            types: Seq::<char>::empty(),
            uris: Seq::<char>::empty(),
            suites: Seq::<char>::empty(),
            components: Seq::<char>::empty(),
            enabled: true,
        }
    } else {
        apply_field(stanza_fields(ls.drop_last()), ls.last())
    }
}

/// One repository per URI: its id is the URI, suites and components that are given,
/// joined by spaces.
pub open spec fn uri_repos(uris: Seq<Seq<char>>, f: Deb822Fields) -> Seq<RepositoryView>
    decreases uris.len(),
{
    if uris.len() == 0 {
        Seq::<RepositoryView>::empty()
    } else {
        let u = uris.last();
        uri_repos(uris.drop_last(), f).push(
            RepositoryView {
                id: join(nonempty(seq![u, f.suites, f.components]), " "@),
                name: u,
                source: SourceType::Apt,
                enabled: f.enabled,
                url: Some(u),
            },
        )
    }
}

/// A stanza names repositories when its types include `deb` and it lists URIs.
pub open spec fn stanza_repos(stanza: Seq<char>) -> Seq<RepositoryView> {
    let f = stanza_fields(lines(stanza));
    if !split_ws(f.types).contains("deb"@) || f.uris.len() == 0 {
        Seq::<RepositoryView>::empty()
    } else {
        uri_repos(split_ws(f.uris), f)
    }
}

pub open spec fn deb822_repos(stanzas: Seq<Seq<char>>) -> Seq<RepositoryView>
    decreases stanzas.len(),
{
    if stanzas.len() == 0 {
        Seq::<RepositoryView>::empty()
    } else {
        deb822_repos(stanzas.drop_last()) + stanza_repos(stanzas.last())
    }
}

struct FieldsBuf {
    types: Vec<char>,
    uris: Vec<char>,
    suites: Vec<char>,
    components: Vec<char>,
    enabled: bool,
}

impl FieldsBuf {
    spec fn view_fields(&self) -> Deb822Fields {
        Deb822Fields {
            types: self.types@,
            uris: self.uris@,
            suites: self.suites@,
            components: self.components@,
            enabled: self.enabled,
        }
    }
}

fn tail_trimmed(line: &[char], k: usize) -> (r: Vec<char>)
    requires
        k <= line.len(),
    ensures
        r@ == trim(line@.skip(k as int)),
{
    let t = copy_range(line, k, line.len());
    proof {
        assert(t@ =~= line@.skip(k as int));
    }
    trim_chars(&t)
}

fn apply_field_line(f: &mut FieldsBuf, raw: &[char])
    ensures
        final(f).view_fields() == apply_field(old(f).view_fields(), raw@),
{
    let line = trim_chars(raw);
    if line.len() == 0 || has_prefix(&line, "#") {
        return ;
    }
    let lower = ascii_lower_chars(&line);
    proof {
        reveal_strlit("types:");
        reveal_strlit("uris:");
        reveal_strlit("suites:");
        reveal_strlit("components:");
        reveal_strlit("enabled:");
        assert(lower@.len() == line@.len());
    }
    if has_prefix(&lower, "types:") {
        f.types = tail_trimmed(&line, 6);
    } else if has_prefix(&lower, "uris:") {
        f.uris = tail_trimmed(&line, 5);
    } else if has_prefix(&lower, "suites:") {
        f.suites = tail_trimmed(&line, 7);
    } else if has_prefix(&lower, "components:") {
        f.components = tail_trimmed(&line, 11);
    } else if has_prefix(&lower, "enabled:") {
        let v = tail_trimmed(&line, 8);
        f.enabled = !eq_str(&v, "no");
    }
}

fn stanza_repos_of(stanza: &[char], out: &mut Vec<Repository>)
    ensures
        repository_views(final(out)@) == repository_views(old(out)@) + stanza_repos(stanza@),
{
    let ls = lines_of(stanza);
    let mut f = FieldsBuf {
        types: Vec::new(),
        uris: Vec::new(),
        suites: Vec::new(),
        components: Vec::new(),
        enabled: true,
    };
    let mut i: usize = 0;
    proof {
        assert(views(ls@).take(0) =~= Seq::<Seq<char>>::empty());
        assert(f.types@ =~= Seq::<char>::empty());
        assert(f.uris@ =~= Seq::<char>::empty());
        assert(f.suites@ =~= Seq::<char>::empty());
        assert(f.components@ =~= Seq::<char>::empty());
    }
    while i < ls.len()
        invariant
            0 <= i <= ls.len(),
            views(ls@) == lines(stanza@),
            f.view_fields() == stanza_fields(views(ls@).take(i as int)),
        decreases ls.len() - i,
    {
        proof {
            assert(views(ls@).take(i + 1).drop_last() =~= views(ls@).take(i as int));
            assert(views(ls@).take(i + 1).last() == ls@[i as int]@);
        }
        apply_field_line(&mut f, &ls[i]);
        i = i + 1;
    }
    proof {
        assert(views(ls@).take(ls@.len() as int) =~= views(ls@));
    }
    let types = split_ws_chars(&f.types);
    let mut has_deb = false;
    let mut k: usize = 0;
    while k < types.len()
        invariant
            0 <= k <= types.len(),
            has_deb == exists|j: int| 0 <= j < k && views(types@)[j] == "deb"@,
        decreases types.len() - k,
    {
        proof {
            assert(views(types@)[k as int] == types@[k as int]@);
        }
        if eq_str(&types[k], "deb") {
            has_deb = true;
        }
        k = k + 1;
    }
    let ghost fv = f.view_fields();
    if !has_deb || f.uris.len() == 0 {
        proof {
            assert(stanza_repos(stanza@) =~= Seq::<RepositoryView>::empty());
            assert(repository_views(out@) + Seq::<RepositoryView>::empty() =~= repository_views(
                out@,
            ));
        }
        return ;
    }
    let uris = split_ws_chars(&f.uris);
    let ghost start = repository_views(out@);
    let mut u: usize = 0;
    proof {
        assert(views(uris@).take(0) =~= Seq::<Seq<char>>::empty());
        assert(start + uri_repos(Seq::<Seq<char>>::empty(), fv) =~= start);
    }
    while u < uris.len()
        invariant
            0 <= u <= uris.len(),
            fv == f.view_fields(),
            repository_views(out@) == start + uri_repos(views(uris@).take(u as int), fv),
        decreases uris.len() - u,
    {
        proof {
            assert(views(uris@).take(u + 1).drop_last() =~= views(uris@).take(u as int));
            assert(views(uris@).take(u + 1).last() == uris@[u as int]@);
        }
        let mut pieces: Vec<Vec<char>> = Vec::new();
        let a = copy_range(&uris[u], 0, uris[u].len());
        let b = copy_range(&f.suites, 0, f.suites.len());
        let c = copy_range(&f.components, 0, f.components.len());
        proof {
            assert(a@ =~= uris@[u as int]@);
            assert(b@ =~= fv.suites);
            assert(c@ =~= fv.components);
        }
        pieces.push(a);
        pieces.push(b);
        pieces.push(c);
        proof {
            assert(views(pieces@) =~= seq![uris@[u as int]@, fv.suites, fv.components]);
        }
        let kept = crate::text::drop_empty(pieces);
        let id = join_chars(&kept, " ");
        let x = Repository {
            id: string_of(&id),
            name: string_of(&uris[u]),
            source: SourceType::Apt,
            enabled: f.enabled,
            url: Some(string_of(&uris[u])),
        };
        proof {
            lemma_repository_views_push(out@, x);
        }
        out.push(x);
        proof {
            assert(repository_views(out@) =~= start + uri_repos(views(uris@).take(u + 1), fv));
        }
        u = u + 1;
    }
    proof {
        assert(views(uris@).take(uris@.len() as int) =~= views(uris@));
        assert(split_ws(fv.types).contains("deb"@));
    }
}

/// Repositories of deb822 stanzas (separated by blank lines): one per URI of each
/// stanza whose types include `deb`.
pub fn parse_deb822_sources(output: &str) -> (r: Vec<Repository>)
    ensures
        repository_views(r@) == deb822_repos(split_pat(output@, "\n\n"@)),
{
    let text = chars_of(output);
    proof {
        reveal_strlit("\n\n");
    }
    let stanzas = split_pat_chars(&text, "\n\n");
    let mut r: Vec<Repository> = Vec::new();
    let mut i: usize = 0;
    proof {
        assert(views(stanzas@).take(0) =~= Seq::<Seq<char>>::empty());
        assert(repository_views(r@) =~= Seq::<RepositoryView>::empty());
    }
    while i < stanzas.len()
        invariant
            0 <= i <= stanzas.len(),
            views(stanzas@) == split_pat(output@, "\n\n"@),
            repository_views(r@) == deb822_repos(views(stanzas@).take(i as int)),
        decreases stanzas.len() - i,
    {
        proof {
            assert(views(stanzas@).take(i + 1).drop_last() =~= views(stanzas@).take(i as int));
            assert(views(stanzas@).take(i + 1).last() == stanzas@[i as int]@);
        }
        stanza_repos_of(&stanzas[i], &mut r);
        i = i + 1;
    }
    proof {
        assert(views(stanzas@).take(stanzas@.len() as int) =~= views(stanzas@));
    }
    r
}

// ---------------------------------------------------------------------------
// Removal simulations (`apt-get -s remove`, `apt-get -s autoremove`).
// ---------------------------------------------------------------------------

/// `Remv name [version] ...`: the package name and the version in brackets (empty
/// when there is none).
pub open spec fn remv_entry(l: Seq<char>) -> Option<(Seq<char>, Seq<char>)> {
    if !starts_with(l, "Remv "@) {
        None
    } else {
        let rest = l.skip(5);
        let (name, after) = match split_once_char(rest, ' ') {
            Some(p) => p,
            None => (rest, Seq::<char>::empty()),
        };
        let version = if after.len() > 0 && after[0] == '[' {
            match split_once_char(after.drop_first(), ']') {
                Some((v, _)) => v,
                None => Seq::<char>::empty(),
            }
        } else {
            Seq::<char>::empty()
        };
        Some((name, version))
    }
}

pub open spec fn remv_entries(ls: Seq<Seq<char>>) -> Seq<(Seq<char>, Seq<char>)> {
    filter_map(ls, |l: Seq<char>| remv_entry(l))
}

pub open spec fn name_version_views(s: Seq<(String, String)>) -> Seq<(Seq<char>, Seq<char>)> {
    s.map_values(|p: (String, String)| (p.0@, p.1@))
}

fn remv_row(l: &[char]) -> (r: Option<(String, String)>)
    ensures
        match r {
            Some(p) => remv_entry(l@) == Some((p.0@, p.1@)),
            None => remv_entry(l@) is None,
        },
{
    if !has_prefix(l, "Remv ") {
        return None;
    }
    proof {
        reveal_strlit("Remv ");
    }
    let rest = copy_range(l, 5, l.len());
    proof {
        assert(rest@ =~= l@.skip(5));
    }
    let (name, after) = match split_once_ch(&rest, ' ') {
        Some(p) => p,
        None => (rest, Vec::new()),
    };
    let version: Vec<char> = if after.len() > 0 && after[0] == '[' {
        let tail = copy_range(&after, 1, after.len());
        proof {
            assert(tail@ =~= after@.drop_first());
        }
        match split_once_ch(&tail, ']') {
            Some((v, _)) => v,
            None => Vec::new(),
        }
    } else {
        Vec::new()
    };
    proof {
        if !(after@.len() > 0 && after@[0] == '[') {
            assert(version@ =~= Seq::<char>::empty());
        }
    }
    Some((string_of(&name), string_of(&version)))
}

/// The `(name, version)` of each `Remv` line of a removal simulation.
pub fn remv_lines(output: &str) -> (r: Vec<(String, String)>)
    ensures
        name_version_views(r@) == remv_entries(lines(output@)),
{
    let text = chars_of(output);
    let ls = lines_of(&text);
    let mut r: Vec<(String, String)> = Vec::new();
    let mut i: usize = 0;
    proof {
        assert(views(ls@).take(0) =~= Seq::<Seq<char>>::empty());
        assert(name_version_views(r@) =~= Seq::<(Seq<char>, Seq<char>)>::empty());
    }
    while i < ls.len()
        invariant
            0 <= i <= ls.len(),
            views(ls@) == lines(output@),
            name_version_views(r@) == remv_entries(views(ls@).take(i as int)),
        decreases ls.len() - i,
    {
        proof {
            assert(views(ls@).take(i + 1).drop_last() =~= views(ls@).take(i as int));
            assert(views(ls@).take(i + 1).last() == ls@[i as int]@);
        }
        match remv_row(&ls[i]) {
            Some(p) => {
                proof {
                    assert(name_version_views(r@.push(p)) =~= name_version_views(r@).push(
                        (p.0@, p.1@),
                    ));
                }
                r.push(p);
            },
            None => {},
        }
        i = i + 1;
    }
    proof {
        assert(views(ls@).take(ls@.len() as int) =~= views(ls@));
    }
    r
}

pub open spec fn remv_names(s: Seq<(Seq<char>, Seq<char>)>) -> Seq<Seq<char>> {
    s.map_values(|p: (Seq<char>, Seq<char>)| p.0)
}

/// The packages a removal simulation lists, in order.
pub fn parse_remove_preview(output: &str) -> (r: Vec<String>)
    ensures
        crate::package::string_views(r@) == remv_names(remv_entries(lines(output@))),
{
    let entries = remv_lines(output);
    let mut r: Vec<String> = Vec::new();
    let mut i: usize = 0;
    while i < entries.len()
        invariant
            0 <= i <= entries.len(),
            crate::package::string_views(r@) == remv_names(name_version_views(entries@)).take(
                i as int,
            ),
        decreases entries.len() - i,
    {
        let x = entries[i].0.clone();
        proof {
            assert(remv_names(name_version_views(entries@)).take(i + 1) =~= remv_names(
                name_version_views(entries@),
            ).take(i as int).push(x@));
            crate::package::lemma_string_views_push(r@, x);
        }
        r.push(x);
        i = i + 1;
    }
    proof {
        assert(remv_names(name_version_views(entries@)).take(entries@.len() as int) =~= remv_names(
            name_version_views(entries@),
        ));
    }
    r
}

// ---------------------------------------------------------------------------
// Kernel package names.
// ---------------------------------------------------------------------------

/// What follows `kind` in `linux-[flavour-]kind-...`.
pub open spec fn abi_after(rest: Seq<char>, kind: Seq<char>) -> Option<Seq<char>> {
    if starts_with(rest, kind) {
        Some(rest.skip(kind.len() as int))
    } else {
        match split_once(rest, "-"@ + kind) {
            Some((_, r)) => Some(r),
            None => None,
        }
    }
}

/// The ABI of a headers or tools package shared by the flavours of a kernel
/// (`linux-headers-6.8.0-45`, `linux-aws-tools-6.8.0-1015`, `linux-headers-6.1.0-25-common`).
pub open spec fn shared_abi_spec(name: Seq<char>) -> Option<Seq<char>> {
    if !starts_with(name, "linux-"@) {
        None
    } else {
        let rest = name.skip(6);
        let r2 = match abi_after(rest, "headers-"@) {
            Some(r) => Some(r),
            None => abi_after(rest, "tools-"@),
        };
        match r2 {
            None => None,
            Some(r) => {
                let abi = match split_once(r, "-common"@) {
                    Some((a, _)) => a,
                    None => r,
                };
                if abi.len() > 0 && is_digit(abi[0]) {
                    Some(abi)
                } else {
                    None
                }
            },
        }
    }
}

/// The version `version` belongs to the ABI `abi` (`6.8.0-45-generic` to `6.8.0-45`).
pub open spec fn has_abi_spec(version: Seq<char>, abi: Seq<char>) -> bool {
    starts_with(version, abi) && version.len() > abi.len() && version[abi.len() as int] == '-'
}

pub open spec fn has_kernel_prefix(name: Seq<char>) -> bool {
    starts_with(name, "linux-image-"@) || starts_with(name, "linux-modules-"@) || starts_with(
        name,
        "linux-headers-"@,
    ) || starts_with(name, "linux-tools-"@)
}

pub open spec fn is_kernel_package_spec(name: Seq<char>) -> bool {
    has_kernel_prefix(name) || shared_abi_spec(name) is Some
}

fn abi_after_of(rest: &[char], kind: &str) -> (r: Option<Vec<char>>)
    ensures
        match r {
            Some(a) => abi_after(rest@, kind@) == Some(a@),
            None => abi_after(rest@, kind@) is None,
        },
{
    if has_prefix(rest, kind) {
        let k = chars_of(kind);
        let a = copy_range(rest, k.len(), rest.len());
        proof {
            assert(a@ =~= rest@.skip(kind@.len() as int));
        }
        return Some(a);
    }
    let mut pat = chars_of("-");
    crate::text::push_str(&mut pat, kind);
    match split_once_chars(rest, &pat) {
        Some((_, r)) => Some(r),
        None => None,
    }
}

/// The shared ABI a package name carries, if any.
pub fn shared_abi(name: &[char]) -> (r: Option<Vec<char>>)
    ensures
        match r {
            Some(a) => shared_abi_spec(name@) == Some(a@),
            None => shared_abi_spec(name@) is None,
        },
{
    if !has_prefix(name, "linux-") {
        return None;
    }
    proof {
        reveal_strlit("linux-");
    }
    let rest = copy_range(name, 6, name.len());
    proof {
        assert(rest@ =~= name@.skip(6));
    }
    let r2 = match abi_after_of(&rest, "headers-") {
        Some(r) => Some(r),
        None => abi_after_of(&rest, "tools-"),
    };
    match r2 {
        None => None,
        Some(r) => {
            let abi = match split_once_str(&r, "-common") {
                Some((a, _)) => a,
                None => r,
            };
            if abi.len() > 0 && '0' <= abi[0] && abi[0] <= '9' {
                Some(abi)
            } else {
                None
            }
        },
    }
}

pub fn has_abi(version: &[char], abi: &[char]) -> (r: bool)
    ensures
        r == has_abi_spec(version@, abi@),
{
    if abi.len() >= version.len() {
        return false;
    }
    let head = copy_range(version, 0, abi.len());
    proof {
        assert(head@ =~= version@.take(abi@.len() as int));
    }
    chars_eq(&head, abi) && version[abi.len()] == '-'
}

fn has_kernel_prefix_of(name: &[char]) -> (r: bool)
    ensures
        r == has_kernel_prefix(name@),
{
    has_prefix(name, "linux-image-") || has_prefix(name, "linux-modules-") || has_prefix(
        name,
        "linux-headers-",
    ) || has_prefix(name, "linux-tools-")
}

/// Kernel images, modules, headers and tools, and the shared headers and tools of an ABI.
pub fn is_kernel_package(name: &str) -> (r: bool)
    ensures
        r == is_kernel_package_spec(name@),
{
    let n = chars_of(name);
    has_kernel_prefix_of(&n) || shared_abi(&n).is_some()
}

pub open spec fn orphan_line(l: Seq<char>) -> Option<CleanupItemView> {
    match remv_entry(l) {
        Some((name, version)) => if is_kernel_package_spec(name) {
            None
        } else {
            Some(
                CleanupItemView {
                    source: SourceType::Apt,
                    kind: CleanupKind::Orphan,
                    name,
                    version,
                    size: None,
                    arch: None,
                },
            )
        },
        None => None,
    }
}

pub open spec fn orphan_lines(ls: Seq<Seq<char>>) -> Seq<CleanupItemView> {
    filter_map(ls, |l: Seq<char>| orphan_line(l))
}

/// The packages `apt-get -s autoremove` would remove, kernel packages left out: old
/// kernels are offered on their own.
pub fn parse_autoremove_sim(output: &str) -> (r: Vec<CleanupItem>)
    ensures
        item_views(r@) == orphan_lines(lines(output@)),
{
    let text = chars_of(output);
    let ls = lines_of(&text);
    let mut r: Vec<CleanupItem> = Vec::new();
    let mut i: usize = 0;
    proof {
        assert(views(ls@).take(0) =~= Seq::<Seq<char>>::empty());
        assert(item_views(r@) =~= Seq::<CleanupItemView>::empty());
    }
    while i < ls.len()
        invariant
            0 <= i <= ls.len(),
            views(ls@) == lines(output@),
            item_views(r@) == orphan_lines(views(ls@).take(i as int)),
        decreases ls.len() - i,
    {
        proof {
            assert(views(ls@).take(i + 1).drop_last() =~= views(ls@).take(i as int));
            assert(views(ls@).take(i + 1).last() == ls@[i as int]@);
        }
        match remv_row(&ls[i]) {
            Some((name, version)) => {
                if !is_kernel_package(name.as_str()) {
                    let x = CleanupItem {
                        source: SourceType::Apt,
                        kind: CleanupKind::Orphan,
                        name,
                        version,
                        size: None,
                        arch: None,
                    };
                    proof {
                        lemma_item_views_push(r@, x);
                    }
                    r.push(x);
                }
            },
            None => {},
        }
        i = i + 1;
    }
    proof {
        assert(views(ls@).take(ls@.len() as int) =~= views(ls@));
    }
    r
}

// ---------------------------------------------------------------------------
// Installed sizes (`dpkg-query -W --showformat='${binary:Package}\t${Installed-Size}\n'`).
// ---------------------------------------------------------------------------

/// KiB as bytes, wrapping at 2^64 as unsigned multiplication does in a release build.
pub open spec fn kib_bytes(k: u64) -> u64 {
    ((k as nat * 1024) % 0x1_0000_0000_0000_0000) as u64
}

/// A `name\tkib` line records the size of `name`, and of its bare name when `name`
/// is `bare:arch` and the bare name has no size yet.
pub open spec fn apply_size_line(m: Map<Seq<char>, u64>, l: Seq<char>) -> Map<Seq<char>, u64> {
    match split_once_char(l, '\t') {
        None => m,
        Some((name, kib)) => match parse_u64(trim(kib)) {
            None => m,
            Some(k) => {
                let b = kib_bytes(k);
                let m1 = match split_once_char(name, ':') {
                    Some((bare, _)) => if m.contains_key(bare) {
                        m
                    } else {
                        m.insert(bare, b)
                    },
                    None => m,
                };
                m1.insert(name, b)
            },
        },
    }
}

pub open spec fn sizes_map(ls: Seq<Seq<char>>) -> Map<Seq<char>, u64>
    decreases ls.len(),
{
    if ls.len() == 0 {
        Map::<Seq<char>, u64>::empty()
    } else {
        apply_size_line(sizes_map(ls.drop_last()), ls.last())
    }
}

/// Installed sizes in bytes by package name; a `name:arch` entry is also reachable by
/// its bare name, since apt omits the native arch.
pub fn parse_installed_sizes(output: &str) -> (r: Vec<(String, u64)>)
    ensures
        keys_distinct(pair_views(r@)),
        pairs_map(pair_views(r@)) == sizes_map(lines(output@)),
{
    let text = chars_of(output);
    let ls = lines_of(&text);
    let mut r: Vec<(String, u64)> = Vec::new();
    let mut i: usize = 0;
    proof {
        assert(views(ls@).take(0) =~= Seq::<Seq<char>>::empty());
        assert(pair_views(r@) =~= Seq::<(Seq<char>, u64)>::empty());
        assert(pairs_map(pair_views(r@)) =~= Map::<Seq<char>, u64>::empty());
    }
    while i < ls.len()
        invariant
            0 <= i <= ls.len(),
            views(ls@) == lines(output@),
            keys_distinct(pair_views(r@)),
            pairs_map(pair_views(r@)) == sizes_map(views(ls@).take(i as int)),
        decreases ls.len() - i,
    {
        proof {
            assert(views(ls@).take(i + 1).drop_last() =~= views(ls@).take(i as int));
            assert(views(ls@).take(i + 1).last() == ls@[i as int]@);
        }
        match split_once_ch(&ls[i], '\t') {
            None => {},
            Some((name, kib)) => {
                let t = trim_chars(&kib);
                match parse_u64_chars(&t) {
                    None => {},
                    Some(k) => {
                        let b = k.wrapping_mul(1024);
                        match split_once_ch(&name, ':') {
                            Some((bare, _)) => {
                                assoc_insert_new(&mut r, string_of(&bare), b);
                            },
                            None => {},
                        }
                        assoc_insert(&mut r, string_of(&name), b);
                    },
                }
            },
        }
        i = i + 1;
    }
    proof {
        assert(views(ls@).take(ls@.len() as int) =~= views(ls@));
    }
    r
}

// ---------------------------------------------------------------------------
// Kernel packages (`dpkg-query -W --showformat='${db:Status-Abbrev}\t${Package}\t${Installed-Size}\n' 'linux-*'`).
// ---------------------------------------------------------------------------

/// An installed package whose name starts with `linux-`.
#[derive(Debug, PartialEq, Eq)]
pub struct LinuxPackage {
    pub name: String,
    pub size: Option<u64>,
    pub held: bool,
}

pub struct LinuxPackageView {
    pub name: Seq<char>,
    pub size: Option<u64>,
    pub held: bool,
}

impl View for LinuxPackage {
    type V = LinuxPackageView;

    open spec fn view(&self) -> LinuxPackageView {
        LinuxPackageView { name: self.name@, size: self.size, held: self.held }
    }
}

impl Clone for LinuxPackage {
    fn clone(&self) -> (r: Self)
        ensures
            r == *self,
    {
        LinuxPackage { name: self.name.clone(), size: self.size, held: self.held }
    }
}

pub open spec fn linux_views(s: Seq<LinuxPackage>) -> Seq<LinuxPackageView> {
    s.map_values(|p: LinuxPackage| p@)
}

/// A line of an installed package: the second byte of the status abbreviation is `i`
/// (a first character outside ASCII takes more than one byte), `h` first marks it held.
pub open spec fn linux_line(l: Seq<char>) -> Option<LinuxPackageView> {
    let f = split(l, '\t');
    let status = f[0];
    if !(status.len() >= 2 && (status[0] as int) < 128 && status[1] == 'i') || f.len() < 2 {
        None
    } else {
        let name = trim(f[1]);
        if name.len() == 0 {
            None
        } else {
            Some(
                LinuxPackageView {
                    name,
                    size: if f.len() > 2 {
                        match parse_u64(trim(f[2])) {
                            Some(k) => Some(kib_bytes(k)),
                            None => None,
                        }
                    } else {
                        None
                    },
                    held: status[0] == 'h',
                },
            )
        }
    }
}

pub open spec fn linux_lines(ls: Seq<Seq<char>>) -> Seq<LinuxPackageView> {
    filter_map(ls, |l: Seq<char>| linux_line(l))
}

fn linux_row(l: &[char]) -> (r: Option<LinuxPackage>)
    ensures
        match r {
            Some(p) => linux_line(l@) == Some(p@),
            None => linux_line(l@) is None,
        },
{
    let f = split_ch(l, '\t');
    proof {
        crate::text::lemma_split_by_len(l@, crate::text::Sep::Char('\t'));
        assert(views(f@)[0] == f@[0]@);
    }
    let status = &f[0];
    if !(status.len() >= 2 && status[0] < '\u{80}' && status[1] == 'i') || f.len() < 2 {
        return None;
    }
    proof {
        assert(views(f@)[1] == f@[1]@);
    }
    let name = trim_chars(&f[1]);
    if name.len() == 0 {
        return None;
    }
    let size = if f.len() > 2 {
        proof {
            assert(views(f@)[2] == f@[2]@);
        }
        let t = trim_chars(&f[2]);
        match parse_u64_chars(&t) {
            Some(k) => Some(k.wrapping_mul(1024)),
            None => None,
        }
    } else {
        None
    };
    Some(LinuxPackage { name: string_of(&name), size, held: status[0] == 'h' })
}

/// The installed `linux-*` packages.
pub fn parse_linux_packages(output: &str) -> (r: Vec<LinuxPackage>)
    ensures
        linux_views(r@) == linux_lines(lines(output@)),
{
    let text = chars_of(output);
    let ls = lines_of(&text);
    let mut r: Vec<LinuxPackage> = Vec::new();
    let mut i: usize = 0;
    proof {
        assert(views(ls@).take(0) =~= Seq::<Seq<char>>::empty());
        assert(linux_views(r@) =~= Seq::<LinuxPackageView>::empty());
    }
    while i < ls.len()
        invariant
            0 <= i <= ls.len(),
            views(ls@) == lines(output@),
            linux_views(r@) == linux_lines(views(ls@).take(i as int)),
        decreases ls.len() - i,
    {
        proof {
            assert(views(ls@).take(i + 1).drop_last() =~= views(ls@).take(i as int));
            assert(views(ls@).take(i + 1).last() == ls@[i as int]@);
        }
        match linux_row(&ls[i]) {
            Some(p) => {
                proof {
                    assert(linux_views(r@.push(p)) =~= linux_views(r@).push(p@));
                }
                r.push(p);
            },
            None => {},
        }
        i = i + 1;
    }
    proof {
        assert(views(ls@).take(ls@.len() as int) =~= views(ls@));
    }
    r
}

/// The version of a kernel image package.
pub open spec fn image_version(name: Seq<char>) -> Option<Seq<char>> {
    if starts_with(name, "linux-image-"@) {
        Some(name.skip(12))
    } else {
        None
    }
}

/// Some installed package is the image of version `v`.
pub open spec fn is_image(linux: Seq<LinuxPackageView>, v: Seq<char>) -> bool {
    exists|k: int| 0 <= k < linux.len() && image_version(#[trigger] linux[k].name) == Some(v)
}

/// The shared ABIs of `s` that `version` belongs to and that are no image version.
pub open spec fn abi_candidates(
    linux: Seq<LinuxPackageView>,
    s: Seq<LinuxPackageView>,
    version: Seq<char>,
) -> Seq<Seq<char>>
    decreases s.len(),
{
    if s.len() == 0 {
        Seq::<Seq<char>>::empty()
    } else {
        let r = abi_candidates(linux, s.drop_last(), version);
        match shared_abi_spec(s.last().name) {
            Some(x) => if has_abi_spec(version, x) && !is_image(linux, x) {
                r.push(x)
            } else {
                r
            },
            None => r,
        }
    }
}

/// The first of the shortest entries.
pub open spec fn first_shortest(c: Seq<Seq<char>>) -> Option<Seq<char>>
    decreases c.len(),
{
    if c.len() == 0 {
        None
    } else {
        match first_shortest(c.drop_last()) {
            None => Some(c.last()),
            Some(m) => if c.last().len() < m.len() {
                Some(c.last())
            } else {
                Some(m)
            },
        }
    }
}

/// The ABI shared by the flavours of `version`: the shortest candidate.
pub open spec fn kernel_abi(linux: Seq<LinuxPackageView>, version: Seq<char>) -> Option<Seq<char>> {
    first_shortest(abi_candidates(linux, linux, version))
}

/// No installed image of the ABI is kept.
pub open spec fn abi_unused(linux: Seq<LinuxPackageView>, abi: Seq<char>, removing: Seq<Seq<char>>) -> bool {
    !exists|k: int|
        0 <= k < linux.len() && (#[trigger] image_version(linux[k].name) matches Some(v) && has_abi_spec(
            v,
            abi,
        ) && !removing.contains(v))
}

/// A package of kernel `version`: its own image, modules, headers and tools, and the
/// shared headers and tools of its ABI when every image of that ABI is removed.
pub open spec fn kernel_package_of(
    p: LinuxPackageView,
    version: Seq<char>,
    abi: Option<Seq<char>>,
    shared_unused: bool,
) -> bool {
    (has_kernel_prefix(p.name) && ends_with(p.name, "-"@ + version)) || (shared_unused
        && shared_abi_spec(p.name) == abi)
}

pub open spec fn kernel_packages_in(
    s: Seq<LinuxPackageView>,
    version: Seq<char>,
    abi: Option<Seq<char>>,
    shared_unused: bool,
) -> Seq<LinuxPackageView>
    decreases s.len(),
{
    if s.len() == 0 {
        s
    } else {
        let r = kernel_packages_in(s.drop_last(), version, abi, shared_unused);
        if kernel_package_of(s.last(), version, abi, shared_unused) {
            r.push(s.last())
        } else {
            r
        }
    }
}

/// The packages removed with kernel `version` when the versions `removing` go.
pub open spec fn kernel_packages(
    linux: Seq<LinuxPackageView>,
    version: Seq<char>,
    removing: Seq<Seq<char>>,
) -> Seq<LinuxPackageView> {
    let abi = kernel_abi(linux, version);
    let shared_unused = match abi {
        Some(a) => abi_unused(linux, a, removing),
        None => false,
    };
    kernel_packages_in(linux, version, abi, shared_unused)
}

fn image_version_of(name: &[char]) -> (r: Option<Vec<char>>)
    ensures
        match r {
            Some(v) => image_version(name@) == Some(v@),
            None => image_version(name@) is None,
        },
{
    if has_prefix(name, "linux-image-") {
        proof {
            reveal_strlit("linux-image-");
        }
        let v = copy_range(name, 12, name.len());
        proof {
            assert(v@ =~= name@.skip(12));
        }
        Some(v)
    } else {
        None
    }
}

fn is_image_of(linux: &[LinuxPackage], x: &[char]) -> (r: bool)
    ensures
        r == is_image(linux_views(linux@), x@),
{
    let ghost lv = linux_views(linux@);
    let mut k: usize = 0;
    while k < linux.len()
        invariant
            0 <= k <= linux.len(),
            lv == linux_views(linux@),
            forall|j: int| 0 <= j < k ==> image_version(#[trigger] lv[j].name) != Some(x@),
        decreases linux.len() - k,
    {
        proof {
            assert(lv[k as int] == linux@[k as int]@);
        }
        let n = chars_of(linux[k].name.as_str());
        match image_version_of(&n) {
            Some(v) => {
                if chars_eq(&v, x) {
                    proof {
                        assert(image_version(lv[k as int].name) == Some(x@));
                    }
                    return true;
                }
            },
            None => {},
        }
        k = k + 1;
    }
    false
}

fn opt_chars_eq(a: &Option<Vec<char>>, b: &Option<Vec<char>>) -> (r: bool)
    ensures
        r == (match a {
            Some(x) => Some(x@),
            None => None,
        } == match b {
            Some(x) => Some(x@),
            None => None,
        }),
{
    match (a, b) {
        (Some(x), Some(y)) => chars_eq(x, y),
        (None, None) => true,
        _ => false,
    }
}

/// The packages removed with kernel `version` when the versions in `removing` go:
/// headers and tools shared by the kernel's ABI (`linux-[F-]headers-X`,
/// `linux-[F-]tools-X`) are included only when every installed image of that ABI is
/// being removed.
pub fn apt_kernel_packages_for(linux: &[LinuxPackage], version: &str, removing: &[&str]) -> (r: Vec<
    LinuxPackage,
>)
    ensures
        linux_views(r@) == kernel_packages(
            linux_views(linux@),
            version@,
            crate::package::str_views(removing@),
        ),
{
    let ghost lv = linux_views(linux@);
    let vc = chars_of(version);
    // The shortest shared ABI that the version belongs to.
    let mut abi: Option<Vec<char>> = None;
    let mut k: usize = 0;
    proof {
        assert(lv.take(0) =~= Seq::<LinuxPackageView>::empty());
    }
    while k < linux.len()
        invariant
            0 <= k <= linux.len(),
            lv == linux_views(linux@),
            vc@ == version@,
            match abi {
                Some(a) => first_shortest(abi_candidates(lv, lv.take(k as int), version@)) == Some(
                    a@,
                ),
                None => first_shortest(abi_candidates(lv, lv.take(k as int), version@)) is None,
            },
        decreases linux.len() - k,
    {
        proof {
            assert(lv.take(k + 1).drop_last() =~= lv.take(k as int));
            assert(lv.take(k + 1).last() == linux@[k as int]@);
        }
        let ghost before = abi_candidates(lv, lv.take(k as int), version@);
        let n = chars_of(linux[k].name.as_str());
        match shared_abi(&n) {
            Some(x) => {
                if has_abi(&vc, &x) && !is_image_of(linux, &x) {
                    proof {
                        assert(abi_candidates(lv, lv.take(k + 1), version@) == before.push(x@));
                        assert(before.push(x@).drop_last() =~= before);
                    }
                    let shorter = match &abi {
                        Some(m) => x.len() < m.len(),
                        None => true,
                    };
                    if shorter {
                        abi = Some(x);
                    }
                } else {
                    proof {
                        assert(abi_candidates(lv, lv.take(k + 1), version@) == before);
                    }
                }
            },
            None => {
                proof {
                    assert(abi_candidates(lv, lv.take(k + 1), version@) == before);
                }
            },
        }
        k = k + 1;
    }
    proof {
        assert(lv.take(lv.len() as int) =~= lv);
    }
    // Whether every image of that ABI is being removed.
    let shared_unused = match &abi {
        None => false,
        Some(a) => {
            let mut used = false;
            let mut j: usize = 0;
            while j < linux.len()
                invariant
                    0 <= j <= linux.len(),
                    lv == linux_views(linux@),
                    used == exists|m: int|
                        0 <= m < j && (#[trigger] image_version(lv[m].name) matches Some(v)
                            && has_abi_spec(v, a@) && !crate::package::str_views(
                            removing@,
                        ).contains(v)),
                decreases linux.len() - j,
            {
                proof {
                    assert(lv[j as int] == linux@[j as int]@);
                }
                let n = chars_of(linux[j].name.as_str());
                match image_version_of(&n) {
                    Some(v) => {
                        if has_abi(&v, a) && !crate::package::str_list_has(removing, &v) {
                            proof {
                                assert(image_version(lv[j as int].name) == Some(v@));
                            }
                            used = true;
                        }
                    },
                    None => {},
                }
                j = j + 1;
            }
            !used
        },
    };
    let ghost abi_v = match &abi {
        Some(a) => Some(a@),
        None => None,
    };
    let mut full = chars_of("-");
    crate::text::push_str(&mut full, version);
    let mut r: Vec<LinuxPackage> = Vec::new();
    let mut i: usize = 0;
    proof {
        assert(linux_views(r@) =~= Seq::<LinuxPackageView>::empty());
    }
    while i < linux.len()
        invariant
            0 <= i <= linux.len(),
            lv == linux_views(linux@),
            full@ == "-"@ + version@,
            abi_v == match &abi {
                Some(a) => Some(a@),
                None => None,
            },
            linux_views(r@) == kernel_packages_in(lv.take(i as int), version@, abi_v, shared_unused),
        decreases linux.len() - i,
    {
        proof {
            assert(lv.take(i + 1).drop_last() =~= lv.take(i as int));
            assert(lv.take(i + 1).last() == linux@[i as int]@);
        }
        let ghost before = kernel_packages_in(lv.take(i as int), version@, abi_v, shared_unused);
        let n = chars_of(linux[i].name.as_str());
        let own = has_kernel_prefix_of(&n) && crate::text::has_suffix_chars(&n, &full);
        let sa = shared_abi(&n);
        let shared = shared_unused && opt_chars_eq(&sa, &abi);
        proof {
            assert(lv[i as int] == linux@[i as int]@);
            assert(own || shared <==> kernel_package_of(lv[i as int], version@, abi_v, shared_unused));
        }
        if own || shared {
            let p = linux[i].clone();
            proof {
                assert(linux_views(r@.push(p)) =~= linux_views(r@).push(p@));
            }
            r.push(p);
        }
        i = i + 1;
    }
    proof {
        assert(lv.take(lv.len() as int) =~= lv);
    }
    r
}

/// The sum of the known sizes, wrapping at 2^64; `None` when no size is known.
pub open spec fn sizes_total(s: Seq<LinuxPackageView>) -> Option<u64>
    decreases s.len(),
{
    if s.len() == 0 {
        None
    } else {
        match (sizes_total(s.drop_last()), s.last().size) {
            (None, x) => x,
            (Some(a), Some(b)) => Some(((a + b) % 0x1_0000_0000_0000_0000) as u64),
            (Some(a), None) => Some(a),
        }
    }
}

pub open spec fn any_held(s: Seq<LinuxPackageView>) -> bool {
    exists|k: int| 0 <= k < s.len() && #[trigger] s[k].held
}

/// An installed kernel image of a numbered version (debug and unsigned images left
/// out), with the total size of its packages and whether any of them is held.
pub open spec fn apt_kernel_of(linux: Seq<LinuxPackageView>, p: LinuxPackageView) -> Option<
    (Seq<char>, Option<u64>, bool),
> {
    match image_version(p.name) {
        None => None,
        Some(v) => if v.len() == 0 || !is_digit(v[0]) || ends_with(v, "-dbg"@) || ends_with(
            v,
            "-dbgsym"@,
        ) || ends_with(v, "-unsigned"@) {
            None
        } else {
            let pkgs = kernel_packages(linux, v, seq![v]);
            Some((v, sizes_total(pkgs), any_held(pkgs)))
        },
    }
}

pub open spec fn apt_kernels(linux: Seq<LinuxPackageView>, s: Seq<LinuxPackageView>) -> Seq<
    (Seq<char>, Option<u64>, bool),
>
    decreases s.len(),
{
    if s.len() == 0 {
        Seq::<(Seq<char>, Option<u64>, bool)>::empty()
    } else {
        let r = apt_kernels(linux, s.drop_last());
        match apt_kernel_of(linux, s.last()) {
            Some(k) => r.push(k),
            None => r,
        }
    }
}

pub open spec fn kernel_triple_views(s: Seq<(String, Option<u64>, bool)>) -> Seq<
    (Seq<char>, Option<u64>, bool),
> {
    s.map_values(|t: (String, Option<u64>, bool)| (t.0@, t.1, t.2))
}

fn sum_sizes(pkgs: &Vec<LinuxPackage>) -> (r: (Option<u64>, bool))
    ensures
        r.0 == sizes_total(linux_views(pkgs@)),
        r.1 == any_held(linux_views(pkgs@)),
{
    let ghost pv = linux_views(pkgs@);
    let mut total: Option<u64> = None;
    let mut held = false;
    let mut i: usize = 0;
    proof {
        assert(pv.take(0) =~= Seq::<LinuxPackageView>::empty());
    }
    while i < pkgs.len()
        invariant
            0 <= i <= pkgs.len(),
            pv == linux_views(pkgs@),
            total == sizes_total(pv.take(i as int)),
            held == exists|k: int| 0 <= k < i && #[trigger] pv[k].held,
        decreases pkgs.len() - i,
    {
        proof {
            assert(pv.take(i + 1).drop_last() =~= pv.take(i as int));
            assert(pv.take(i + 1).last() == pkgs@[i as int]@);
        }
        total = match (total, pkgs[i].size) {
            (None, x) => x,
            (Some(a), Some(b)) => Some(a.wrapping_add(b)),
            (Some(a), None) => Some(a),
        };
        proof {
            assert(pv[i as int].held == pkgs@[i as int].held);
        }
        if pkgs[i].held {
            held = true;
        }
        i = i + 1;
    }
    proof {
        assert(pv.take(pv.len() as int) =~= pv);
    }
    (total, held)
}

/// The installed kernels: version, total size of their packages, and whether any of
/// their packages is held.
pub fn parse_apt_kernels(linux: &[LinuxPackage]) -> (r: Vec<(String, Option<u64>, bool)>)
    ensures
        kernel_triple_views(r@) == apt_kernels(linux_views(linux@), linux_views(linux@)),
{
    let ghost lv = linux_views(linux@);
    let mut r: Vec<(String, Option<u64>, bool)> = Vec::new();
    let mut i: usize = 0;
    proof {
        assert(lv.take(0) =~= Seq::<LinuxPackageView>::empty());
        assert(kernel_triple_views(r@) =~= Seq::<(Seq<char>, Option<u64>, bool)>::empty());
    }
    while i < linux.len()
        invariant
            0 <= i <= linux.len(),
            lv == linux_views(linux@),
            kernel_triple_views(r@) == apt_kernels(lv, lv.take(i as int)),
        decreases linux.len() - i,
    {
        proof {
            assert(lv.take(i + 1).drop_last() =~= lv.take(i as int));
            assert(lv.take(i + 1).last() == linux@[i as int]@);
        }
        let n = chars_of(linux[i].name.as_str());
        match image_version_of(&n) {
            None => {},
            Some(v) => {
                if !(v.len() == 0 || !('0' <= v[0] && v[0] <= '9') || has_suffix(&v, "-dbg")
                    || has_suffix(&v, "-dbgsym") || has_suffix(&v, "-unsigned")) {
                    let vs = string_of(&v);
                    let mut removing: Vec<&str> = Vec::new();
                    removing.push(vs.as_str());
                    proof {
                        assert(crate::package::str_views(removing@) =~= seq![v@]);
                    }
                    let pkgs = apt_kernel_packages_for(linux, vs.as_str(), removing.as_slice());
                    let (size, held) = sum_sizes(&pkgs);
                    let t = (string_of(&v), size, held);
                    proof {
                        assert(kernel_triple_views(r@.push(t)) =~= kernel_triple_views(r@).push(
                            (v@, size, held),
                        ));
                    }
                    r.push(t);
                }
            },
        }
        i = i + 1;
    }
    proof {
        assert(lv.take(lv.len() as int) =~= lv);
    }
    r
}

/// The versions of held kernels.
pub open spec fn held_versions(ks: Seq<(Seq<char>, Option<u64>, bool)>) -> Seq<Seq<char>>
    decreases ks.len(),
{
    if ks.len() == 0 {
        Seq::<Seq<char>>::empty()
    } else if ks.last().2 {
        held_versions(ks.drop_last()).push(ks.last().0)
    } else {
        held_versions(ks.drop_last())
    }
}

pub open spec fn versions_sizes(ks: Seq<(Seq<char>, Option<u64>, bool)>) -> Seq<(Seq<char>, Option<u64>)> {
    ks.map_values(|k: (Seq<char>, Option<u64>, bool)| (k.0, k.1))
}

pub open spec fn not_held(items: Seq<CleanupItemView>, held: Seq<Seq<char>>) -> Seq<CleanupItemView>
    decreases items.len(),
{
    if items.len() == 0 {
        items
    } else if held.contains(items.last().version) {
        not_held(items.drop_last(), held)
    } else {
        not_held(items.drop_last(), held).push(items.last())
    }
}

/// Old kernels of apt: held kernels count toward `keep` but are never offered, since
/// `apt-get -y` refuses to touch them.
pub open spec fn apt_old_kernels(
    linux: Seq<LinuxPackageView>,
    running: Option<Seq<char>>,
    keep: nat,
) -> Seq<CleanupItemView> {
    let ks = apt_kernels(linux, linux);
    not_held(
        old_kernels(
            versions_sizes(ks),
            running,
            keep,
            SourceType::Apt,
            KernelNaming::VersionAfter("linux-image-"),
        ),
        held_versions(ks),
    )
}

/// The old kernels to offer for removal.
pub fn apt_old_kernel_items(linux: &[LinuxPackage], running: Option<&str>, keep: usize) -> (r: Vec<
    CleanupItem,
>)
    ensures
        item_views(r@) == apt_old_kernels(
            linux_views(linux@),
            match running {
                Some(s) => Some(s@),
                None => None,
            },
            keep as nat,
        ),
{
    let kernels = parse_apt_kernels(linux);
    let ghost kv = kernel_triple_views(kernels@);
    let mut held: Vec<String> = Vec::new();
    let mut entries: Vec<KernelEntry> = Vec::new();
    let mut i: usize = 0;
    proof {
        assert(kv.take(0) =~= Seq::<(Seq<char>, Option<u64>, bool)>::empty());
        assert(crate::package::string_views(held@) =~= Seq::<Seq<char>>::empty());
        assert(kernel_views(entries@) =~= versions_sizes(kv.take(0)));
    }
    while i < kernels.len()
        invariant
            0 <= i <= kernels.len(),
            kv == kernel_triple_views(kernels@),
            crate::package::string_views(held@) == held_versions(kv.take(i as int)),
            kernel_views(entries@) == versions_sizes(kv.take(i as int)),
        decreases kernels.len() - i,
    {
        proof {
            assert(kv.take(i + 1).drop_last() =~= kv.take(i as int));
            assert(kv.take(i + 1).last() == (kernels@[i as int].0@, kernels@[i as int].1, kernels@[i as int].2));
        }
        if kernels[i].2 {
            let h = kernels[i].0.clone();
            proof {
                crate::package::lemma_string_views_push(held@, h);
            }
            held.push(h);
        }
        let e = (kernels[i].0.clone(), kernels[i].1);
        proof {
            assert(kernel_views(entries@.push(e)) =~= kernel_views(entries@).push((e.0@, e.1)));
            assert(versions_sizes(kv.take(i + 1)) =~= versions_sizes(kv.take(i as int)).push(
                (kv[i as int].0, kv[i as int].1),
            ));
        }
        entries.push(e);
        i = i + 1;
    }
    proof {
        assert(kv.take(kv.len() as int) =~= kv);
    }
    let items = old_kernel_items(entries, running, keep, SourceType::Apt, KernelNaming::VersionAfter("linux-image-"));
    let ghost iv = item_views(items@);
    let ghost hv = crate::package::string_views(held@);
    let mut r: Vec<CleanupItem> = Vec::new();
    let mut j: usize = 0;
    proof {
        assert(iv.take(0) =~= Seq::<CleanupItemView>::empty());
        assert(item_views(r@) =~= Seq::<CleanupItemView>::empty());
    }
    while j < items.len()
        invariant
            0 <= j <= items.len(),
            iv == item_views(items@),
            hv == crate::package::string_views(held@),
            item_views(r@) == not_held(iv.take(j as int), hv),
        decreases items.len() - j,
    {
        proof {
            assert(iv.take(j + 1).drop_last() =~= iv.take(j as int));
            assert(iv.take(j + 1).last() == items@[j as int]@);
        }
        if !crate::cleanup::string_list_has(&held, &items[j].version) {
            let x = items[j].clone();
            proof {
                lemma_item_views_push(r@, x);
            }
            r.push(x);
        }
        j = j + 1;
    }
    proof {
        assert(iv.take(iv.len() as int) =~= iv);
    }
    r
}

// ---------------------------------------------------------------------------
// What a cleanup removes.
// ---------------------------------------------------------------------------

pub open spec fn linux_names(s: Seq<LinuxPackageView>) -> Seq<Seq<char>> {
    s.map_values(|p: LinuxPackageView| p.name)
}

/// The package names of the kernels `versions` (each removed with all of `versions`).
pub open spec fn kernels_packages(
    linux: Seq<LinuxPackageView>,
    versions: Seq<Seq<char>>,
    all: Seq<Seq<char>>,
) -> Seq<Seq<char>>
    decreases versions.len(),
{
    if versions.len() == 0 {
        Seq::<Seq<char>>::empty()
    } else {
        kernels_packages(linux, versions.drop_last(), all) + linux_names(
            kernel_packages(linux, versions.last(), all),
        )
    }
}

/// The packages to remove for the cleanup items of apt, given the installed
/// `linux-*` packages: the orphans, and the packages of the old kernels that do not
/// belong to the running kernel; sorted, each once.
pub fn removal_packages(items: &[CleanupItem], linux: &[LinuxPackage], running: Option<&str>) -> (r: Vec<
    String,
>)
    ensures
        strictly_sorted(string_views(r@)),
        string_views(r@).to_set() == item_names(
            items_of_kind(item_views(items@), CleanupKind::Orphan),
        ).to_set().union(
            kept_kernels(
                kernels_packages(
                    linux_views(linux@),
                    item_versions(items_of_kind(item_views(items@), CleanupKind::OldKernel)),
                    item_versions(items_of_kind(item_views(items@), CleanupKind::OldKernel)),
                ),
                match running {
                    Some(s) => Some(s@),
                    None => None,
                },
            ).to_set(),
        ),
{
    let orphans_items = crate::cleanup::of_kind(items, CleanupKind::Orphan);
    let kernel_items = crate::cleanup::of_kind(items, CleanupKind::OldKernel);
    let mut orphans: Vec<String> = Vec::new();
    let mut i: usize = 0;
    while i < orphans_items.len()
        invariant
            0 <= i <= orphans_items.len(),
            string_views(orphans@) == item_names(item_views(orphans_items@)).take(i as int),
        decreases orphans_items.len() - i,
    {
        let x = orphans_items[i].name.clone();
        proof {
            lemma_string_views_push(orphans@, x);
            assert(item_names(item_views(orphans_items@)).take(i + 1) =~= item_names(
                item_views(orphans_items@),
            ).take(i as int).push(x@));
        }
        orphans.push(x);
        i = i + 1;
    }
    proof {
        assert(item_names(item_views(orphans_items@)).take(orphans_items@.len() as int) =~= item_names(
            item_views(orphans_items@),
        ));
    }
    let mut versions: Vec<&str> = Vec::new();
    let mut j: usize = 0;
    while j < kernel_items.len()
        invariant
            0 <= j <= kernel_items.len(),
            str_views(versions@) == item_versions(item_views(kernel_items@)).take(j as int),
        decreases kernel_items.len() - j,
    {
        let ghost before = versions@;
        versions.push(kernel_items[j].version.as_str());
        proof {
            assert(item_versions(item_views(kernel_items@)).take(j + 1) =~= item_versions(
                item_views(kernel_items@),
            ).take(j as int).push(kernel_items@[j as int].version@));
            assert(str_views(versions@) =~= str_views(before).push(kernel_items@[j as int].version@));
        }
        j = j + 1;
    }
    let ghost vs = item_versions(item_views(kernel_items@));
    proof {
        assert(vs.take(kernel_items@.len() as int) =~= vs);
    }
    let mut kernel_pkgs: Vec<String> = Vec::new();
    let mut k: usize = 0;
    proof {
        assert(vs.take(0) =~= Seq::<Seq<char>>::empty());
        assert(string_views(kernel_pkgs@) =~= Seq::<Seq<char>>::empty());
    }
    while k < versions.len()
        invariant
            0 <= k <= versions.len(),
            str_views(versions@) == vs,
            string_views(kernel_pkgs@) == kernels_packages(linux_views(linux@), vs.take(k as int), vs),
        decreases versions.len() - k,
    {
        let pkgs = apt_kernel_packages_for(linux, versions[k], versions.as_slice());
        let ghost before = string_views(kernel_pkgs@);
        proof {
            assert(vs.take(k + 1).drop_last() =~= vs.take(k as int));
            assert(vs.take(k + 1).last() == versions@[k as int]@);
        }
        let mut m: usize = 0;
        while m < pkgs.len()
            invariant
                0 <= m <= pkgs.len(),
                string_views(kernel_pkgs@) == before + linux_names(linux_views(pkgs@)).take(m as int),
            decreases pkgs.len() - m,
        {
            let x = pkgs[m].name.clone();
            proof {
                lemma_string_views_push(kernel_pkgs@, x);
                assert(linux_names(linux_views(pkgs@)).take(m + 1) =~= linux_names(
                    linux_views(pkgs@),
                ).take(m as int).push(x@));
                assert(before + linux_names(linux_views(pkgs@)).take(m + 1) =~= (before
                    + linux_names(linux_views(pkgs@)).take(m as int)).push(x@));
            }
            kernel_pkgs.push(x);
            m = m + 1;
        }
        proof {
            assert(linux_names(linux_views(pkgs@)).take(pkgs@.len() as int) =~= linux_names(
                linux_views(pkgs@),
            ));
        }
        k = k + 1;
    }
    proof {
        assert(vs.take(versions@.len() as int) =~= vs);
    }
    removal_list(orphans, kernel_pkgs, running)
}

/// The value the list gives a key: that of its last pair for the key.
fn last_value(table: &Vec<(String, u64)>, key: &[char]) -> (r: Option<u64>)
    ensures
        match r {
            Some(v) => pairs_map(pair_views(table@)).contains_key(key@) && pairs_map(
                pair_views(table@),
            )[key@] == v,
            None => !pairs_map(pair_views(table@)).contains_key(key@),
        },
{
    let ghost s = pair_views(table@);
    let mut i = table.len();
    proof {
        assert(s.take(s.len() as int) =~= s);
    }
    while i > 0
        invariant
            i <= table.len(),
            s == pair_views(table@),
            pairs_map(s).contains_key(key@) == pairs_map(s.take(i as int)).contains_key(key@),
            pairs_map(s).contains_key(key@) ==> pairs_map(s)[key@] == pairs_map(s.take(i as int))[key@],
        decreases i,
    {
        proof {
            assert(s.take(i as int).drop_last() =~= s.take(i - 1));
            assert(s.take(i as int).last() == s[i - 1]);
            assert(s[i - 1] == (table@[i - 1].0@, table@[i - 1].1));
        }
        if chars_eq(&chars_of(table[i - 1].0.as_str()), key) {
            return Some(table[i - 1].1);
        }
        i = i - 1;
    }
    proof {
        assert(s.take(0) =~= Seq::<(Seq<char>, u64)>::empty());
    }
    None
}

/// The size an item gets from the installed sizes: its package's, if listed.
pub open spec fn sized(item: CleanupItemView, sizes: Map<Seq<char>, u64>) -> CleanupItemView {
    CleanupItemView {
        size: if sizes.contains_key(item.name) {
            Some(sizes[item.name])
        } else {
            None
        },
        ..item
    }
}

/// Each item with the installed size of its package, none where it is not listed.
pub fn with_installed_sizes(items: Vec<CleanupItem>, sizes: &Vec<(String, u64)>) -> (r: Vec<CleanupItem>)
    ensures
        item_views(r@) == item_views(items@).map_values(
            |i: CleanupItemView| sized(i, pairs_map(pair_views(sizes@))),
        ),
{
    let ghost m = pairs_map(pair_views(sizes@));
    let mut out: Vec<CleanupItem> = Vec::new();
    let mut k: usize = 0;
    while k < items.len()
        invariant
            k <= items.len(),
            m == pairs_map(pair_views(sizes@)),
            item_views(out@) == item_views(items@).take(k as int).map_values(
                |i: CleanupItemView| sized(i, m),
            ),
        decreases items.len() - k,
    {
        let it = &items[k];
        let size = last_value(sizes, &chars_of(it.name.as_str()));
        let x = CleanupItem {
            source: it.source,
            kind: it.kind,
            name: it.name.clone(),
            version: it.version.clone(),
            size,
            arch: crate::package::clone_opt(&it.arch),
        };
        proof {
            assert(x@ == sized(items@[k as int]@, m));
            lemma_item_views_push(out@, x);
            assert(item_views(items@).take(k + 1).map_values(|i: CleanupItemView| sized(i, m))
                =~= item_views(items@).take(k as int).map_values(|i: CleanupItemView| sized(i, m)).push(
                sized(items@[k as int]@, m),
            ));
        }
        out.push(x);
        k = k + 1;
    }
    proof {
        assert(item_views(items@).take(items@.len() as int) =~= item_views(items@));
    }
    out
}

} // verus!
