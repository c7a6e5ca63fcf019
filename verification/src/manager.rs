//! The decisions of the package manager front end: which sources are active, which
//! source a package or repository belongs to, how requests are grouped by source, and
//! the checks on what a user asks to add as a repository.
use vstd::prelude::*;

use crate::config::{source_enabled, SourcesConfig};
use crate::error::PikeError;
use crate::package::{display_name_spec, package_views, repository_views, string_views, Package, PackageView, RepoMethod, Repository, RepositoryView, SourceType};
use crate::text::{contains, contains_chars, join, push_all, to_lowercase, unicode_lower};
use crate::text::{chars_of, ends_with, find_char, find_ch, has_prefix, has_suffix, lemma_find_char, starts_with, string_of};

verus! {

pub open spec fn is_repo_id_char(c: char) -> bool {
    ('a' <= c && c <= 'z') || ('A' <= c && c <= 'Z') || ('0' <= c && c <= '9') || c == '.'
        || c == '_' || c == '-'
}

/// `char::is_control`: the Unicode `Cc` category.
pub open spec fn is_control(c: char) -> bool {
    c <= '\u{1F}' || ('\u{7F}' <= c && c <= '\u{9F}')
}

pub open spec fn has_valid_url_scheme_spec(url: Seq<char>) -> bool {
    starts_with(url, "http://"@) || starts_with(url, "https://"@) || starts_with(url, "file://"@)
}

/// An `owner/name` pair: some text, a `/`, and some text (which may hold more `/`).
pub open spec fn is_slash_pair(url: Seq<char>) -> bool {
    match find_char(url, '/') {
        Some(i) => i > 0 && i + 1 < url.len(),
        None => false,
    }
}

/// The message of the first rule of a repository request that fails, if any.
pub open spec fn repo_input_error(
    method: RepoMethod,
    repo_id: Seq<char>,
    name: Seq<char>,
    url: Seq<char>,
) -> Option<Seq<char>> {
    if repo_id.len() > 0 && exists|i: int| 0 <= i < repo_id.len() && !is_repo_id_char(repo_id[i]) {
        Some("repo ID may only contain letters, digits, '.', '_', '-'"@)
    } else if exists|i: int| 0 <= i < name.len() && is_control(name[i]) {
        Some("repo name must not contain control characters"@)
    } else {
        match method {
            RepoMethod::Copr => if url.len() == 0 {
                Some("Copr identifier is required (owner/project)"@)
            } else if !is_slash_pair(url) {
                Some("Copr identifier must be in owner/project format"@)
            } else {
                None
            },
            RepoMethod::RpmPackage => if !ends_with(url, ".rpm"@) {
                Some("RPM URL must end in .rpm"@)
            } else if !has_valid_url_scheme_spec(url) {
                Some("RPM URL must start with http://, https://, or file://"@)
            } else {
                None
            },
            RepoMethod::Ppa => if url.len() == 0 {
                Some("PPA identifier is required (user/ppa-name)"@)
            } else if !is_slash_pair(url) {
                Some("PPA identifier must be in user/ppa-name format"@)
            } else {
                None
            },
            _ => if !has_valid_url_scheme_spec(url) {
                Some("URL must start with http://, https://, or file://"@)
            } else {
                None
            },
        }
    }
}

pub fn has_valid_url_scheme(url: &str) -> (r: bool)
    ensures
        r == has_valid_url_scheme_spec(url@),
{
    let v = chars_of(url);
    has_prefix(&v, "http://") || has_prefix(&v, "https://") || has_prefix(&v, "file://")
}

/// The URL rule of the methods that take a URL: a URL that starts with `http://`,
/// `https://` or `file://` passes (for an RPM package, when it also ends in `.rpm`),
/// and any other URL is refused with the message that names the schemes.
pub proof fn lemma_url_scheme_rule(url: Seq<char>)
    ensures
        (starts_with(url, "http://"@) || starts_with(url, "https://"@) || starts_with(url, "file://"@))
            ==> {
            &&& repo_input_error(RepoMethod::BaseUrl, Seq::empty(), Seq::empty(), url) is None
            &&& repo_input_error(RepoMethod::RepoFile, Seq::empty(), Seq::empty(), url) is None
            &&& repo_input_error(RepoMethod::RemoteAdd, Seq::empty(), Seq::empty(), url) is None
            &&& ends_with(url, ".rpm"@) ==> repo_input_error(
                RepoMethod::RpmPackage,
                Seq::empty(),
                Seq::empty(),
                url,
            ) is None
        },
        !(starts_with(url, "http://"@) || starts_with(url, "https://"@) || starts_with(url, "file://"@))
            ==> repo_input_error(RepoMethod::BaseUrl, Seq::empty(), Seq::empty(), url) == Some(
            "URL must start with http://, https://, or file://"@,
        ),
{
}

fn slash_pair(v: &[char]) -> (r: bool)
    ensures
        r == is_slash_pair(v@),
{
    proof {
        lemma_find_char(v@, '/');
    }
    match find_ch(v, '/') {
        Some(i) => {
            proof {
                assert(i < v.len());
            }
            i > 0 && i + 1 < v.len()
        },
        None => false,
    }
}

fn validation(msg: &str) -> (r: PikeError)
    ensures
        r matches PikeError::Validation(m) && m@ == msg@,
{
    let v = chars_of(msg);
    PikeError::Validation(string_of(&v))
}

/// Checks a request to add a repository: the optional repo ID, the display name,
/// and the URL or identifier in the form the method asks for.
pub fn validate_repo_input(method: RepoMethod, repo_id: &str, name: &str, url: &str) -> (r: Result<
    (),
    PikeError,
>)
    ensures
        match repo_input_error(method, repo_id@, name@, url@) {
            None => r is Ok,
            Some(msg) => r matches Err(PikeError::Validation(m)) && m@ == msg,
        },
{
    let id = chars_of(repo_id);
    if id.len() > 0 {
        let mut i: usize = 0;
        while i < id.len()
            invariant
                0 <= i <= id.len(),
                id@ == repo_id@,
                forall|j: int| 0 <= j < i ==> is_repo_id_char(id@[j]),
            decreases id.len() - i,
        {
            let c = id[i];
            if !(('a' <= c && c <= 'z') || ('A' <= c && c <= 'Z') || ('0' <= c && c <= '9') || c
                == '.' || c == '_' || c == '-') {
                return Err(validation("repo ID may only contain letters, digits, '.', '_', '-'"));
            }
            i = i + 1;
        }
    }
    proof {
        if repo_id@.len() > 0 {
            assert forall|j: int| 0 <= j < repo_id@.len() implies is_repo_id_char(repo_id@[j]) by {
                assert(id@[j] == repo_id@[j]);
            }
        }
    }
    let nm = chars_of(name);
    let mut i: usize = 0;
    while i < nm.len()
        invariant
            0 <= i <= nm.len(),
            nm@ == name@,
            forall|j: int| 0 <= j < i ==> !is_control(nm@[j]),
            repo_id@.len() > 0 ==> forall|j: int|
                0 <= j < repo_id@.len() ==> is_repo_id_char(repo_id@[j]),
        decreases nm.len() - i,
    {
        let c = nm[i];
        if c <= '\u{1F}' || ('\u{7F}' <= c && c <= '\u{9F}') {
            proof {
                assert(is_control(name@[i as int]));
            }
            return Err(validation("repo name must not contain control characters"));
        }
        i = i + 1;
    }
    let u = chars_of(url);
    match method {
        RepoMethod::Copr => {
            if u.len() == 0 {
                return Err(validation("Copr identifier is required (owner/project)"));
            }
            if !slash_pair(&u) {
                return Err(validation("Copr identifier must be in owner/project format"));
            }
        },
        RepoMethod::RpmPackage => {
            if !has_suffix(&u, ".rpm") {
                return Err(validation("RPM URL must end in .rpm"));
            }
            if !has_valid_url_scheme(url) {
                return Err(validation("RPM URL must start with http://, https://, or file://"));
            }
        },
        RepoMethod::Ppa => {
            if u.len() == 0 {
                return Err(validation("PPA identifier is required (user/ppa-name)"));
            }
            if !slash_pair(&u) {
                return Err(validation("PPA identifier must be in user/ppa-name format"));
            }
        },
        _ => {
            if !has_valid_url_scheme(url) {
                return Err(validation("URL must start with http://, https://, or file://"));
            }
        },
    }
    Ok(())
}

// ---------------------------------------------------------------------------
// Active sources.
// ---------------------------------------------------------------------------

pub open spec fn source_found(st: SourceType, dnf_found: bool, flatpak_found: bool, apt_found: bool) -> bool {
    match st {
        SourceType::Dnf => dnf_found,
        SourceType::Flatpak => flatpak_found,
        SourceType::Apt => apt_found,
    }
}

/// The sources in source order that are enabled and whose binary was found.
pub open spec fn active_spec(c: SourcesConfig, dnf_found: bool, flatpak_found: bool, apt_found: bool) -> Seq<
    SourceType,
> {
    let one = |st: SourceType|
        if source_enabled(c, st) && source_found(st, dnf_found, flatpak_found, apt_found) {
            seq![st]
        } else {
            Seq::<SourceType>::empty()
        };
    one(SourceType::Dnf) + one(SourceType::Flatpak) + one(SourceType::Apt)
}

/// The sources to use: enabled in the configuration and installed; an error when
/// there is none.
pub fn active_sources(c: &SourcesConfig, dnf_found: bool, flatpak_found: bool, apt_found: bool) -> (r:
    Result<Vec<SourceType>, PikeError>)
    ensures
        active_spec(*c, dnf_found, flatpak_found, apt_found).len() > 0 ==> (r matches Ok(v) && v@
            == active_spec(*c, dnf_found, flatpak_found, apt_found)),
        active_spec(*c, dnf_found, flatpak_found, apt_found).len() == 0 ==> (r matches Err(
            PikeError::Other(m),
        ) && m@ == "no package managers found (need dnf5, apt-get, or flatpak)"@),
{
    let mut v: Vec<SourceType> = Vec::new();
    if c.dnf && dnf_found {
        v.push(SourceType::Dnf);
    }
    if c.flatpak && flatpak_found {
        v.push(SourceType::Flatpak);
    }
    if c.apt && apt_found {
        v.push(SourceType::Apt);
    }
    proof {
        assert(v@ =~= active_spec(*c, dnf_found, flatpak_found, apt_found));
    }
    if v.len() == 0 {
        let m = chars_of("no package managers found (need dnf5, apt-get, or flatpak)");
        return Err(PikeError::Other(string_of(&m)));
    }
    Ok(v)
}

/// The error for a source that is not active.
pub fn source_unavailable(st: SourceType) -> (r: PikeError)
    ensures
        r matches PikeError::Other(m) && m@ == display_name_spec(st) + " source not available"@,
{
    let mut m = chars_of(st.display_name());
    crate::text::push_str(&mut m, " source not available");
    PikeError::Other(string_of(&m))
}

// ---------------------------------------------------------------------------
// The source of a package or repository.
// ---------------------------------------------------------------------------

/// A search of a source found the package: some result's name contains it, without
/// regard to case.
pub open spec fn search_hit_spec(package: Seq<char>, found: Seq<PackageView>) -> bool {
    exists|k: int|
        0 <= k < found.len() && contains(unicode_lower(#[trigger] found[k].name), unicode_lower(package))
}

pub fn search_hit(package: &str, found: &[Package]) -> (r: bool)
    ensures
        r == search_hit_spec(package@, package_views(found@)),
{
    let q = to_lowercase(&chars_of(package));
    let mut i: usize = 0;
    while i < found.len()
        invariant
            0 <= i <= found.len(),
            q@ == unicode_lower(package@),
            forall|k: int|
                0 <= k < i ==> !contains(unicode_lower(#[trigger] package_views(found@)[k].name), q@),
        decreases found.len() - i,
    {
        let n = to_lowercase(&chars_of(found[i].name.as_str()));
        proof {
            assert(package_views(found@)[i as int] == found@[i as int]@);
        }
        if contains_chars(&n, &q) {
            proof {
                assert(contains(unicode_lower(package_views(found@)[i as int].name), unicode_lower(
                    package@,
                )));
            }
            return true;
        }
        i = i + 1;
    }
    false
}

pub open spec fn source_names(s: Seq<SourceType>) -> Seq<Seq<char>> {
    s.map_values(|st: SourceType| display_name_spec(st))
}

/// The one source whose search found the package; none is `NotFound`, several ask
/// the user to choose.
pub fn choose_package_source(package: &str, hits: &[SourceType]) -> (r: Result<SourceType, PikeError>)
    ensures
        hits@.len() == 0 ==> (r matches Err(PikeError::NotFound { name, source_name }) && name@
            == package@ && source_name@ == "any source"@),
        hits@.len() == 1 ==> r == Ok::<SourceType, PikeError>(hits@[0]),
        hits@.len() > 1 ==> (r matches Err(PikeError::Other(m)) && m@ == "'"@ + package@
            + "' found in multiple sources. Use --source to specify: "@ + join(
            source_names(hits@),
            ", "@,
        )),
{
    if hits.len() == 0 {
        let n = chars_of(package);
        let a = chars_of("any source");
        return Err(PikeError::NotFound { name: string_of(&n), source_name: string_of(&a) });
    }
    if hits.len() == 1 {
        return Ok(hits[0]);
    }
    let mut parts: Vec<Vec<char>> = Vec::new();
    let mut i: usize = 0;
    while i < hits.len()
        invariant
            0 <= i <= hits.len(),
            crate::text::views(parts@) == source_names(hits@).take(i as int),
        decreases hits.len() - i,
    {
        let c = chars_of(hits[i].display_name());
        proof {
            crate::text::lemma_views_push(parts@, c);
            assert(source_names(hits@).take(i + 1) =~= source_names(hits@).take(i as int).push(c@));
        }
        parts.push(c);
        i = i + 1;
    }
    proof {
        assert(source_names(hits@).take(hits@.len() as int) =~= source_names(hits@));
    }
    let joined = crate::text::join_chars(&parts, ", ");
    let mut m = chars_of("'");
    crate::text::push_str(&mut m, package);
    crate::text::push_str(&mut m, "' found in multiple sources. Use --source to specify: ");
    push_all(&mut m, &joined);
    Err(PikeError::Other(string_of(&m)))
}

/// The first source whose repositories include `id`.
pub open spec fn repo_source_spec(id: Seq<char>, listed: Seq<(SourceType, Seq<RepositoryView>)>) -> Option<
    SourceType,
>
    decreases listed.len(),
{
    if listed.len() == 0 {
        None
    } else if exists|k: int| 0 <= k < listed[0].1.len() && #[trigger] listed[0].1[k].id == id {
        Some(listed[0].0)
    } else {
        repo_source_spec(id, listed.drop_first())
    }
}

pub open spec fn listed_views(s: Seq<(SourceType, Vec<Repository>)>) -> Seq<(SourceType, Seq<RepositoryView>)> {
    s.map_values(|x: (SourceType, Vec<Repository>)| (x.0, repository_views(x.1@)))
}

/// The source of repository `id`: the first whose listing includes it.
pub fn find_repo_source(id: &str, listed: &[(SourceType, Vec<Repository>)]) -> (r: Result<SourceType, PikeError>)
    ensures
        match repo_source_spec(id@, listed_views(listed@)) {
            Some(st) => r == Ok::<SourceType, PikeError>(st),
            None => r matches Err(PikeError::NotFound { name, source_name }) && name@ == id@
                && source_name@ == "any source"@,
        },
{
    let ghost lv = listed_views(listed@);
    let idc = chars_of(id);
    let mut i: usize = 0;
    proof {
        assert(lv.skip(0) =~= lv);
    }
    while i < listed.len()
        invariant
            0 <= i <= listed.len(),
            lv == listed_views(listed@),
            idc@ == id@,
            repo_source_spec(id@, lv) == repo_source_spec(id@, lv.skip(i as int)),
        decreases listed.len() - i,
    {
        proof {
            assert(lv.skip(i as int)[0] == lv[i as int]);
            assert(lv.skip(i as int).drop_first() =~= lv.skip(i + 1));
            assert(lv[i as int].1 == repository_views(listed@[i as int].1@));
        }
        let repos = &listed[i].1;
        let mut k: usize = 0;
        let mut hit = false;
        while k < repos.len()
            invariant
                0 <= k <= repos.len(),
                idc@ == id@,
                hit == exists|j: int| 0 <= j < k && #[trigger] repository_views(repos@)[j].id == id@,
            decreases repos.len() - k,
        {
            proof {
                assert(repository_views(repos@)[k as int].id == repos@[k as int].id@);
            }
            if crate::text::chars_eq(&chars_of(repos[k].id.as_str()), &idc) {
                hit = true;
            }
            k = k + 1;
        }
        if hit {
            return Ok(listed[i].0);
        }
        i = i + 1;
    }
    let n = chars_of(id);
    let a = chars_of("any source");
    Err(PikeError::NotFound { name: string_of(&n), source_name: string_of(&a) })
}

// ---------------------------------------------------------------------------
// Requests grouped by source.
// ---------------------------------------------------------------------------

/// The packages of `pairs` that belong to `st`, in order.
pub open spec fn packages_of(pairs: Seq<(SourceType, Seq<char>)>, st: SourceType) -> Seq<Seq<char>>
    decreases pairs.len(),
{
    if pairs.len() == 0 {
        Seq::<Seq<char>>::empty()
    } else if pairs.last().0 == st {
        packages_of(pairs.drop_last(), st).push(pairs.last().1)
    } else {
        packages_of(pairs.drop_last(), st)
    }
}

pub open spec fn pair_string_views(s: Seq<(SourceType, String)>) -> Seq<(SourceType, Seq<char>)> {
    s.map_values(|x: (SourceType, String)| (x.0, x.1@))
}

pub open spec fn group_views(s: Seq<(SourceType, Vec<String>)>) -> Seq<(SourceType, Seq<Seq<char>>)> {
    s.map_values(|x: (SourceType, Vec<String>)| (x.0, string_views(x.1@)))
}

/// The groups by source in source order, sources without packages left out.
pub open spec fn groups_spec(pairs: Seq<(SourceType, Seq<char>)>) -> Seq<(SourceType, Seq<Seq<char>>)> {
    let one = |st: SourceType|
        if packages_of(pairs, st).len() > 0 {
            seq![(st, packages_of(pairs, st))]
        } else {
            Seq::<(SourceType, Seq<Seq<char>>)>::empty()
        };
    one(SourceType::Dnf) + one(SourceType::Flatpak) + one(SourceType::Apt)
}

fn packages_for(pairs: &[(SourceType, String)], st: SourceType) -> (r: Vec<String>)
    ensures
        string_views(r@) == packages_of(pair_string_views(pairs@), st),
{
    let ghost pv = pair_string_views(pairs@);
    let mut r: Vec<String> = Vec::new();
    let mut i: usize = 0;
    proof {
        assert(pv.take(0) =~= Seq::<(SourceType, Seq<char>)>::empty());
        assert(string_views(r@) =~= Seq::<Seq<char>>::empty());
    }
    while i < pairs.len()
        invariant
            0 <= i <= pairs.len(),
            pv == pair_string_views(pairs@),
            string_views(r@) == packages_of(pv.take(i as int), st),
        decreases pairs.len() - i,
    {
        proof {
            assert(pv.take(i + 1).drop_last() =~= pv.take(i as int));
            assert(pv.take(i + 1).last() == (pairs@[i as int].0, pairs@[i as int].1@));
        }
        if pairs[i].0 == st {
            let x = pairs[i].1.clone();
            proof {
                crate::package::lemma_string_views_push(r@, x);
            }
            r.push(x);
        }
        i = i + 1;
    }
    proof {
        assert(pv.take(pv.len() as int) =~= pv);
    }
    r
}

/// Packages grouped by the source they were resolved to, in source order.
pub fn group_by_source(pairs: &[(SourceType, String)]) -> (r: Vec<(SourceType, Vec<String>)>)
    ensures
        group_views(r@) == groups_spec(pair_string_views(pairs@)),
{
    let mut r: Vec<(SourceType, Vec<String>)> = Vec::new();
    let d = packages_for(pairs, SourceType::Dnf);
    let f = packages_for(pairs, SourceType::Flatpak);
    let a = packages_for(pairs, SourceType::Apt);
    let ghost gd = string_views(d@);
    let ghost gf = string_views(f@);
    let ghost ga = string_views(a@);
    if d.len() > 0 {
        r.push((SourceType::Dnf, d));
    }
    if f.len() > 0 {
        r.push((SourceType::Flatpak, f));
    }
    if a.len() > 0 {
        r.push((SourceType::Apt, a));
    }
    proof {
        assert(group_views(r@) =~= groups_spec(pair_string_views(pairs@)));
    }
    r
}

} // verus!
