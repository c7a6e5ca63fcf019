//! What the command line and the terminal interface decide: argument values, update
//! summaries, plural forms, tabs, the add-repository form, list filters and the
//! layout of confirmation dialogs.
use vstd::prelude::*;

use crate::error::PikeError;

use crate::package::{count_of, display_name_spec, string_views, update_views, CleanupItem, CleanupItemView, PackageUpdate, PackageUpdateView, RepoMethod, SourceType, StatusSummary};
use crate::text::{chars_of, copy_range, decimal, decimal_chars, eq_str, has_prefix, join, push_all, push_str, rsplit_once_ch, rsplit_once_char, split_once_ch, split_once_char, starts_with, string_of, views};

verus! {

// ---------------------------------------------------------------------------
// Argument values.
// ---------------------------------------------------------------------------

/// The repository method a command-line name stands for.
pub open spec fn repo_method_of(s: Seq<char>) -> Option<RepoMethod> {
    if s == "repofile"@ || s == "repo-file"@ || s == "repo"@ {
        Some(RepoMethod::RepoFile)
    } else if s == "copr"@ {
        Some(RepoMethod::Copr)
    } else if s == "baseurl"@ || s == "base-url"@ {
        Some(RepoMethod::BaseUrl)
    } else if s == "rpm"@ || s == "rpm-package"@ {
        Some(RepoMethod::RpmPackage)
    } else if s == "remote"@ || s == "remote-add"@ {
        Some(RepoMethod::RemoteAdd)
    } else {
        None
    }
}

pub fn parse_repo_method(s: &str) -> (r: Result<RepoMethod, String>)
    ensures
        match repo_method_of(s@) {
            Some(m) => r == Ok::<RepoMethod, String>(m),
            None => r matches Err(msg) && msg@ == "unknown method '"@ + s@
                + "', expected: repofile, copr, baseurl, rpm, remote"@,
        },
{
    let v = chars_of(s);
    if eq_str(&v, "repofile") || eq_str(&v, "repo-file") || eq_str(&v, "repo") {
        Ok(RepoMethod::RepoFile)
    } else if eq_str(&v, "copr") {
        Ok(RepoMethod::Copr)
    } else if eq_str(&v, "baseurl") || eq_str(&v, "base-url") {
        Ok(RepoMethod::BaseUrl)
    } else if eq_str(&v, "rpm") || eq_str(&v, "rpm-package") {
        Ok(RepoMethod::RpmPackage)
    } else if eq_str(&v, "remote") || eq_str(&v, "remote-add") {
        Ok(RepoMethod::RemoteAdd)
    } else {
        let mut m = chars_of("unknown method '");
        push_str(&mut m, s);
        push_str(&mut m, "', expected: repofile, copr, baseurl, rpm, remote");
        Err(string_of(&m))
    }
}

/// `--source NAME`: no filter without a name, else the source of that name.
pub fn parse_source_filter(s: Option<&str>) -> (r: Result<Option<SourceType>, String>)
    ensures
        match s {
            None => r == Ok::<Option<SourceType>, String>(None),
            Some(name) => match r {
                Ok(Some(st)) => display_name_spec(st) == name@,
                Ok(None) => false,
                Err(msg) => (forall|st: SourceType| display_name_spec(st) != name@) && msg@
                    == "unknown source '"@ + name@ + "', expected one of: dnf, flatpak, apt"@,
            },
        },
{
    match s {
        Some(name) => match SourceType::parse_name(name) {
            Ok(st) => Ok(Some(st)),
            Err(e) => Err(e),
        },
        None => Ok(None),
    }
}

/// The tabs of the terminal interface.
#[derive(Debug, Clone, Copy, PartialEq, Eq, Structural)]
pub enum Tab {
    Search,
    Installed,
    Updates,
    Repos,
    Settings,
    About,
}

pub open spec fn tab_index(t: Tab) -> int {
    match t {
        Tab::Search => 0,
        Tab::Installed => 1,
        Tab::Updates => 2,
        Tab::Repos => 3,
        Tab::Settings => 4,
        Tab::About => 5,
    }
}

pub open spec fn tab_at(i: int) -> Tab {
    if i == 0 {
        Tab::Search
    } else if i == 1 {
        Tab::Installed
    } else if i == 2 {
        Tab::Updates
    } else if i == 3 {
        Tab::Repos
    } else if i == 4 {
        Tab::Settings
    } else {
        Tab::About
    }
}

pub open spec fn tab_key(t: Tab) -> Seq<char> {
    match t {
        Tab::Search => "1"@,
        Tab::Installed => "2"@,
        Tab::Updates => "3"@,
        Tab::Repos => "4"@,
        Tab::Settings => "9"@,
        Tab::About => "0"@,
    }
}

impl Tab {
    pub const ALL: [Tab; 6] = [
        Tab::Search,
        Tab::Installed,
        Tab::Updates,
        Tab::Repos,
        Tab::Settings,
        Tab::About,
    ];

    /// The key that switches to the tab.
    pub fn key(self) -> (r: &'static str)
        ensures
            r@ == tab_key(self),
    {
        match self {
            Tab::Search => "1",
            Tab::Installed => "2",
            Tab::Updates => "3",
            Tab::Repos => "4",
            Tab::Settings => "9",
            Tab::About => "0",
        }
    }

    /// The tab to the right, the last followed by the first.
    pub fn next(self) -> (r: Tab)
        ensures
            r == tab_at((tab_index(self) + 1) % 6),
    {
        match self {
            Tab::Search => Tab::Installed,
            Tab::Installed => Tab::Updates,
            Tab::Updates => Tab::Repos,
            Tab::Repos => Tab::Settings,
            Tab::Settings => Tab::About,
            Tab::About => Tab::Search,
        }
    }

    /// The tab to the left, the first followed by the last.
    pub fn prev(self) -> (r: Tab)
        ensures
            r == tab_at((tab_index(self) + 5) % 6),
    {
        match self {
            Tab::Search => Tab::About,
            Tab::Installed => Tab::Search,
            Tab::Updates => Tab::Installed,
            Tab::Repos => Tab::Updates,
            Tab::Settings => Tab::Repos,
            Tab::About => Tab::Settings,
        }
    }
}

/// Moving right and then left comes back to the same tab, and so does moving left
/// and then right.
pub proof fn lemma_tab_next_prev(t: Tab)
    ensures
        tab_at((tab_index(tab_at((tab_index(t) + 1) % 6)) + 5) % 6) == t,
        tab_at((tab_index(tab_at((tab_index(t) + 5) % 6)) + 1) % 6) == t,
{
}

/// The tab a `--tab` value names.
pub open spec fn tab_named(s: Seq<char>) -> Option<Tab> {
    if s == "search"@ || s == "s"@ || s == "1"@ {
        Some(Tab::Search)
    } else if s == "installed"@ || s == "i"@ || s == "2"@ {
        Some(Tab::Installed)
    } else if s == "updates"@ || s == "u"@ || s == "3"@ {
        Some(Tab::Updates)
    } else if s == "repos"@ || s == "r"@ || s == "4"@ {
        Some(Tab::Repos)
    } else if s == "settings"@ || s == "9"@ {
        Some(Tab::Settings)
    } else if s == "about"@ || s == "0"@ {
        Some(Tab::About)
    } else {
        None
    }
}

pub fn parse_tab(s: &str) -> (r: Result<Tab, String>)
    ensures
        match tab_named(s@) {
            Some(t) => r == Ok::<Tab, String>(t),
            None => r matches Err(msg) && msg@ == "unknown tab '"@ + s@
                + "', expected: search, installed, updates, repos, settings, about"@,
        },
{
    let v = chars_of(s);
    if eq_str(&v, "search") || eq_str(&v, "s") || eq_str(&v, "1") {
        Ok(Tab::Search)
    } else if eq_str(&v, "installed") || eq_str(&v, "i") || eq_str(&v, "2") {
        Ok(Tab::Installed)
    } else if eq_str(&v, "updates") || eq_str(&v, "u") || eq_str(&v, "3") {
        Ok(Tab::Updates)
    } else if eq_str(&v, "repos") || eq_str(&v, "r") || eq_str(&v, "4") {
        Ok(Tab::Repos)
    } else if eq_str(&v, "settings") || eq_str(&v, "9") {
        Ok(Tab::Settings)
    } else if eq_str(&v, "about") || eq_str(&v, "0") {
        Ok(Tab::About)
    } else {
        let mut m = chars_of("unknown tab '");
        push_str(&mut m, s);
        push_str(&mut m, "', expected: search, installed, updates, repos, settings, about");
        Err(string_of(&m))
    }
}

// ---------------------------------------------------------------------------
// Plural forms.
// ---------------------------------------------------------------------------

pub open spec fn english_plural_spec(n: int) -> Seq<char> {
    if n == 1 {
        "one"@
    } else {
        "other"@
    }
}

/// The English plural category of a count.
pub fn english_plural(n: usize) -> (r: &'static str)
    ensures
        r@ == english_plural_spec(n as int),
{
    if n == 1 {
        "one"
    } else {
        "other"
    }
}

pub open spec fn polish_plural_spec(n: int) -> Seq<char> {
    if n == 1 {
        "one"@
    } else if n % 10 >= 2 && n % 10 <= 4 && (n % 100 < 12 || n % 100 > 14) {
        "few"@
    } else {
        "many"@
    }
}

/// The Polish plural category of a count: one, few (2-4 but not 12-14 in the last
/// digits) or many.
pub fn polish_plural(n: usize) -> (r: &'static str)
    ensures
        r@ == polish_plural_spec(n as int),
{
    if n == 1 {
        "one"
    } else if n % 10 >= 2 && n % 10 <= 4 && (n % 100 < 12 || n % 100 > 14) {
        "few"
    } else {
        "many"
    }
}

/// `base_category`, the translation key of a count.
pub fn plural_key(base: &str, count: usize, polish: bool) -> (r: String)
    ensures
        r@ == base@ + "_"@ + (if polish {
            polish_plural_spec(count as int)
        } else {
            english_plural_spec(count as int)
        }),
{
    let suffix = if polish {
        polish_plural(count)
    } else {
        english_plural(count)
    };
    let mut v = chars_of(base);
    push_str(&mut v, "_");
    push_str(&mut v, suffix);
    string_of(&v)
}

// ---------------------------------------------------------------------------
// Update summaries.
// ---------------------------------------------------------------------------

/// The updates of one source, in order.
pub open spec fn updates_of(updates: Seq<PackageUpdateView>, st: SourceType) -> Seq<PackageUpdateView>
    decreases updates.len(),
{
    if updates.len() == 0 {
        updates
    } else if updates.last().source == st {
        updates_of(updates.drop_last(), st).push(updates.last())
    } else {
        updates_of(updates.drop_last(), st)
    }
}

/// `  name installed → available`, `?` standing for an unknown installed version.
pub open spec fn update_line(u: PackageUpdateView) -> Seq<char> {
    "  "@ + u.name + " "@ + (if u.installed_version.len() == 0 {
        "?"@
    } else {
        u.installed_version
    }) + " \u{2192} "@ + u.available_version
}

pub open spec fn update_lines(us: Seq<PackageUpdateView>) -> Seq<Seq<char>> {
    us.map_values(|u: PackageUpdateView| update_line(u))
}

/// The lines of a source's section: a header with the count, at most
/// `max_per_source` updates, and how many more there are.
pub open spec fn section_lines(st: SourceType, us: Seq<PackageUpdateView>, max_per_source: nat) -> Seq<
    Seq<char>,
> {
    let count = us.len();
    let header = " "@ + display_name_spec(st) + " - "@ + decimal(count) + " update"@ + (if count
        == 1 {
        ""@
    } else {
        "s"@
    });
    let shown = if count <= max_per_source {
        us
    } else {
        us.take(max_per_source as int)
    };
    let more = if count > max_per_source {
        seq!["  \u{2026} and "@ + decimal((count - max_per_source) as nat) + " more"@]
    } else {
        Seq::<Seq<char>>::empty()
    };
    seq![header] + update_lines(shown) + more
}

/// The sections of the sources that have updates, in source order.
pub open spec fn sections(updates: Seq<PackageUpdateView>, max_per_source: nat) -> Seq<Seq<char>> {
    let one = |st: SourceType|
        if updates_of(updates, st).len() > 0 {
            seq![join(section_lines(st, updates_of(updates, st), max_per_source), "\n"@)]
        } else {
            Seq::<Seq<char>>::empty()
        };
    one(SourceType::Dnf) + one(SourceType::Flatpak) + one(SourceType::Apt)
}

/// The heading of a source's section: ` name - count update`.
pub open spec fn section_heading(st: SourceType, count: nat) -> Seq<char> {
    " "@ + display_name_spec(st) + " - "@ + decimal(count) + " update"@
}

/// Every source that has updates (dnf, Flatpak and APT alike) gets a section in the
/// grouped summary, headed by its name and its number of updates.
pub proof fn lemma_grouped_summary_has_every_source(
    updates: Seq<PackageUpdateView>,
    max_per_source: nat,
    st: SourceType,
)
    requires
        updates_of(updates, st).len() > 0,
    ensures
        crate::text::contains(
            join(sections(updates, max_per_source), "\n\n"@),
            section_heading(st, updates_of(updates, st).len()),
        ),
{
    let secs = sections(updates, max_per_source);
    let sec = |x: SourceType| join(section_lines(x, updates_of(updates, x), max_per_source), "\n"@);
    let has = |x: SourceType| updates_of(updates, x).len() > 0;
    let one = |x: SourceType|
        if has(x) {
            seq![sec(x)]
        } else {
            Seq::<Seq<char>>::empty()
        };
    assert(secs == one(SourceType::Dnf) + one(SourceType::Flatpak) + one(SourceType::Apt));
    let nd = one(SourceType::Dnf).len() as int;
    let nf = one(SourceType::Flatpak).len() as int;
    let k = match st {
        SourceType::Dnf => 0int,
        SourceType::Flatpak => nd,
        SourceType::Apt => nd + nf,
    };
    assert(secs[k] == sec(st));
    crate::text::lemma_join_contains(secs, "\n\n"@, k);
    let lines = section_lines(st, updates_of(updates, st), max_per_source);
    crate::text::lemma_join_contains(lines, "\n"@, 0);
    let count = updates_of(updates, st).len();
    let suffix = if count == 1 {
        ""@
    } else {
        "s"@
    };
    let e = Seq::<char>::empty();
    assert(lines[0] =~= e + section_heading(st, count) + suffix);
    crate::text::lemma_contains_middle(e, section_heading(st, count), suffix);
    crate::text::lemma_contains_trans(sec(st), lines[0], section_heading(st, count));
    crate::text::lemma_contains_trans(join(secs, "\n\n"@), sec(st), section_heading(st, count));
}

fn section_of(updates: &[PackageUpdate], st: SourceType, max_per_source: usize) -> (r: Option<Vec<char>>)
    ensures
        match r {
            Some(s) => updates_of(update_views(updates@), st).len() > 0 && s@ == join(
                section_lines(st, updates_of(update_views(updates@), st), max_per_source as nat),
                "\n"@,
            ),
            None => updates_of(update_views(updates@), st).len() == 0,
        },
{
    let ghost uv = update_views(updates@);
    let mut mine: Vec<&PackageUpdate> = Vec::new();
    let mut i: usize = 0;
    proof {
        assert(uv.take(0) =~= Seq::<PackageUpdateView>::empty());
    }
    while i < updates.len()
        invariant
            0 <= i <= updates.len(),
            uv == update_views(updates@),
            mine@.map_values(|u: &PackageUpdate| u@) == updates_of(uv.take(i as int), st),
        decreases updates.len() - i,
    {
        proof {
            assert(uv.take(i + 1).drop_last() =~= uv.take(i as int));
            assert(uv.take(i + 1).last() == updates@[i as int]@);
        }
        if updates[i].source == st {
            let ghost before = mine@;
            mine.push(&updates[i]);
            proof {
                assert(mine@.map_values(|u: &PackageUpdate| u@) =~= before.map_values(
                    |u: &PackageUpdate| u@,
                ).push(updates@[i as int]@));
            }
        }
        i = i + 1;
    }
    proof {
        assert(uv.take(uv.len() as int) =~= uv);
    }
    let ghost us = updates_of(uv, st);
    let count = mine.len();
    if count == 0 {
        return None;
    }
    let mut parts: Vec<Vec<char>> = Vec::new();
    let mut header = chars_of(" ");
    push_str(&mut header, st.display_name());
    push_str(&mut header, " - ");
    let digits = decimal_chars(count as u64);
    push_all(&mut header, &digits);
    push_str(&mut header, " update");
    if count != 1 {
        push_str(&mut header, "s");
    } else {
        proof {
            reveal_strlit("");
            assert(header@ + ""@ =~= header@);
        }
    }
    proof {
        assert(us.len() == count);
        assert(header@ == " "@ + display_name_spec(st) + " - "@ + decimal(us.len()) + " update"@
            + (if us.len() == 1 {
            ""@
        } else {
            "s"@
        }));
    }
    let ghost hdr = header@;
    parts.push(header);
    let shown = if count <= max_per_source {
        count
    } else {
        max_per_source
    };
    let mut k: usize = 0;
    proof {
        let shown_us = if us.len() <= max_per_source {
            us
        } else {
            us.take(max_per_source as int)
        };
        assert(update_lines(shown_us).take(0) =~= Seq::<Seq<char>>::empty());
    }
    while k < shown
        invariant
            0 <= k <= shown,
            shown <= count,
            count == mine@.len(),
            mine@.map_values(|u: &PackageUpdate| u@) == us,
            shown == (if count <= max_per_source {
                count
            } else {
                max_per_source
            }),
            views(parts@) == seq![hdr] + update_lines(us.take(k as int)),
            hdr == " "@ + display_name_spec(st) + " - "@ + decimal(us.len()) + " update"@ + (if us.len()
                == 1 {
                ""@
            } else {
                "s"@
            }),
            parts@.len() == k + 1,
        decreases shown - k,
    {
        let u = mine[k];
        proof {
            assert(us[k as int] == u@);
        }
        let mut line = chars_of("  ");
        push_str(&mut line, u.name.as_str());
        push_str(&mut line, " ");
        let iv = chars_of(u.installed_version.as_str());
        if iv.len() == 0 {
            push_str(&mut line, "?");
        } else {
            push_all(&mut line, &iv);
        }
        push_str(&mut line, " \u{2192} ");
        push_str(&mut line, u.available_version.as_str());
        proof {
            assert(line@ == update_line(us[k as int]));
            crate::text::lemma_views_push(parts@, line);
            assert(update_lines(us.take(k + 1)) =~= update_lines(us.take(k as int)).push(line@));
        }
        let ghost before = views(parts@);
        parts.push(line);
        proof {
            assert(views(parts@) =~= before.push(line@));
        }
        k = k + 1;
    }
    if count > max_per_source {
        let mut more = chars_of("  \u{2026} and ");
        let d = decimal_chars((count - max_per_source) as u64);
        push_all(&mut more, &d);
        push_str(&mut more, " more");
        proof {
            crate::text::lemma_views_push(parts@, more);
        }
        parts.push(more);
    }
    proof {
        let shown_us = if us.len() <= max_per_source {
            us
        } else {
            us.take(max_per_source as int)
        };
        assert(us.take(shown as int) =~= shown_us);
        assert(views(parts@) =~= section_lines(st, us, max_per_source as nat));
    }
    Some(crate::text::join_chars(&parts, "\n"))
}

/// The updates grouped by source in source order: per source a header with the count,
/// at most `max_per_source` updates and how many more there are; sections separated
/// by a blank line.
pub fn format_grouped_updates(updates: &[PackageUpdate], max_per_source: usize) -> (r: String)
    ensures
        r@ == join(sections(update_views(updates@), max_per_source as nat), "\n\n"@),
{
    let mut secs: Vec<Vec<char>> = Vec::new();
    let d = section_of(updates, SourceType::Dnf, max_per_source);
    let f = section_of(updates, SourceType::Flatpak, max_per_source);
    let a = section_of(updates, SourceType::Apt, max_per_source);
    match d {
        Some(s) => secs.push(s),
        None => {},
    }
    match f {
        Some(s) => secs.push(s),
        None => {},
    }
    match a {
        Some(s) => secs.push(s),
        None => {},
    }
    proof {
        assert(views(secs@) =~= sections(update_views(updates@), max_per_source as nat));
    }
    let out = crate::text::join_chars(&secs, "\n\n");
    string_of(&out)
}

/// The icons of the status bar: up to date, updates available, error.
pub fn waybar_icons(style: crate::config::IconStyle) -> (r: (&'static str, &'static str, &'static str))
    ensures
        style == crate::config::IconStyle::Nerd ==> r.0@ == "\u{f012c}"@ && r.1@ == "\u{f03d7}"@
            && r.2@ == "\u{f002a}"@,
        style == crate::config::IconStyle::Unicode ==> r.0@ == "\u{2713}"@ && r.1@ == "\u{2b06}"@
            && r.2@ == "\u{26a0}"@,
{
    match style {
        crate::config::IconStyle::Nerd => ("\u{f012c}", "\u{f03d7}", "\u{f002a}"),
        crate::config::IconStyle::Unicode => ("\u{2713}", "\u{2b06}", "\u{26a0}"),
    }
}

// ---------------------------------------------------------------------------
// Cleanup lines.
// ---------------------------------------------------------------------------

/// The version of a cleanup item with its arch in brackets.
pub open spec fn cleanup_version_spec(item: CleanupItemView) -> Seq<char> {
    match item.arch {
        Some(arch) => if item.version.len() == 0 {
            "("@ + arch + ")"@
        } else {
            item.version + " ("@ + arch + ")"@
        },
        None => item.version,
    }
}

pub fn cleanup_version(item: &CleanupItem) -> (r: String)
    ensures
        r@ == cleanup_version_spec(item@),
{
    let v = chars_of(item.version.as_str());
    match &item.arch {
        Some(arch) => {
            let mut out: Vec<char> = Vec::new();
            if v.len() > 0 {
                push_all(&mut out, &v);
                push_str(&mut out, " ");
            }
            push_str(&mut out, "(");
            push_str(&mut out, arch.as_str());
            push_str(&mut out, ")");
            proof {
                reveal_strlit(" (");
                reveal_strlit(" ");
                reveal_strlit("(");
                if v@.len() == 0 {
                    assert(out@ =~= "("@ + arch@ + ")"@);
                } else {
                    assert(out@ =~= item@.version + " ("@ + arch@ + ")"@);
                }
            }
            string_of(&out)
        },
        None => string_of(&v),
    }
}

/// `[source] name version`, parts that are empty left out.
pub open spec fn clean_line_spec(item: CleanupItemView) -> Seq<char> {
    join(
        crate::text::nonempty(
            seq!["["@ + display_name_spec(item.source) + "]"@, item.name, cleanup_version_spec(item)],
        ),
        " "@,
    )
}

pub fn clean_line(item: &CleanupItem) -> (r: String)
    ensures
        r@ == clean_line_spec(item@),
{
    let mut tag = chars_of("[");
    push_str(&mut tag, item.source.display_name());
    push_str(&mut tag, "]");
    let name = chars_of(item.name.as_str());
    let version = cleanup_version(item);
    let vc = chars_of(version.as_str());
    let mut parts: Vec<Vec<char>> = Vec::new();
    parts.push(tag);
    parts.push(name);
    parts.push(vc);
    proof {
        assert(views(parts@) =~= seq![
            "["@ + display_name_spec(item@.source) + "]"@,
            item@.name,
            cleanup_version_spec(item@),
        ]);
    }
    let kept = crate::text::drop_empty(parts);
    let out = crate::text::join_chars(&kept, " ");
    string_of(&out)
}

/// Removal previews split into the packages they add (with their source, in order)
/// and the sources whose preview failed, with their errors.
pub fn split_clean_preview(preview: &[(SourceType, Result<Vec<String>, PikeError>)]) -> (r: (
    Vec<(SourceType, &str)>,
    Vec<(SourceType, &PikeError)>,
))
    ensures
        r.0@.map_values(|x: (SourceType, &str)| (x.0, x.1@)) == preview_extras(preview@),
        r.1@.map_values(|x: (SourceType, &PikeError)| (x.0, *x.1)) == preview_errors(preview@),
{
    let mut extras: Vec<(SourceType, &str)> = Vec::new();
    let mut errors: Vec<(SourceType, &PikeError)> = Vec::new();
    let mut i: usize = 0;
    proof {
        assert(preview@.take(0) =~= Seq::<(SourceType, Result<Vec<String>, PikeError>)>::empty());
        assert(extras@.map_values(|x: (SourceType, &str)| (x.0, x.1@)) =~= Seq::<
            (SourceType, Seq<char>),
        >::empty());
        assert(errors@.map_values(|x: (SourceType, &PikeError)| (x.0, *x.1)) =~= Seq::<
            (SourceType, PikeError),
        >::empty());
    }
    while i < preview.len()
        invariant
            0 <= i <= preview.len(),
            extras@.map_values(|x: (SourceType, &str)| (x.0, x.1@)) == preview_extras(
                preview@.take(i as int),
            ),
            errors@.map_values(|x: (SourceType, &PikeError)| (x.0, *x.1)) == preview_errors(
                preview@.take(i as int),
            ),
        decreases preview.len() - i,
    {
        proof {
            assert(preview@.take(i + 1).drop_last() =~= preview@.take(i as int));
            assert(preview@.take(i + 1).last() == preview@[i as int]);
        }
        let st = preview[i].0;
        match &preview[i].1 {
            Ok(packages) => {
                let ghost before = extras@.map_values(|x: (SourceType, &str)| (x.0, x.1@));
                let mut k: usize = 0;
                while k < packages.len()
                    invariant
                        0 <= k <= packages.len(),
                        extras@.map_values(|x: (SourceType, &str)| (x.0, x.1@)) == before
                            + tagged(st, string_views(packages@).take(k as int)),
                    decreases packages.len() - k,
                {
                    let x = (st, packages[k].as_str());
                    proof {
                        assert(extras@.push(x).map_values(|x: (SourceType, &str)| (x.0, x.1@))
                            =~= extras@.map_values(|x: (SourceType, &str)| (x.0, x.1@)).push(
                            (st, packages@[k as int]@),
                        ));
                        assert(tagged(st, string_views(packages@).take(k + 1)) =~= tagged(
                            st,
                            string_views(packages@).take(k as int),
                        ).push((st, packages@[k as int]@)));
                        assert(before + tagged(st, string_views(packages@).take(k + 1)) =~= (before
                            + tagged(st, string_views(packages@).take(k as int))).push(
                            (st, packages@[k as int]@),
                        ));
                    }
                    extras.push(x);
                    k = k + 1;
                }
                proof {
                    assert(string_views(packages@).take(packages@.len() as int) =~= string_views(
                        packages@,
                    ));
                    assert(errors@.map_values(|x: (SourceType, &PikeError)| (x.0, *x.1))
                        + Seq::<(SourceType, PikeError)>::empty() =~= errors@.map_values(
                        |x: (SourceType, &PikeError)| (x.0, *x.1),
                    ));
                }
            },
            Err(e) => {
                proof {
                    assert(errors@.push((st, e)).map_values(
                        |x: (SourceType, &PikeError)| (x.0, *x.1),
                    ) =~= errors@.map_values(|x: (SourceType, &PikeError)| (x.0, *x.1)).push(
                        (st, *e),
                    ));
                    assert(extras@.map_values(|x: (SourceType, &str)| (x.0, x.1@))
                        + Seq::<(SourceType, Seq<char>)>::empty() =~= extras@.map_values(
                        |x: (SourceType, &str)| (x.0, x.1@),
                    ));
                }
                errors.push((st, e));
            },
        }
        i = i + 1;
    }
    proof {
        assert(preview@.take(preview@.len() as int) =~= preview@);
    }
    (extras, errors)
}

pub open spec fn tagged(st: SourceType, s: Seq<Seq<char>>) -> Seq<(SourceType, Seq<char>)> {
    s.map_values(|p: Seq<char>| (st, p))
}

pub open spec fn preview_extras(p: Seq<(SourceType, Result<Vec<String>, PikeError>)>) -> Seq<
    (SourceType, Seq<char>),
>
    decreases p.len(),
{
    if p.len() == 0 {
        Seq::<(SourceType, Seq<char>)>::empty()
    } else {
        preview_extras(p.drop_last()) + match p.last().1 {
            Ok(v) => tagged(p.last().0, string_views(v@)),
            Err(_) => Seq::<(SourceType, Seq<char>)>::empty(),
        }
    }
}

pub open spec fn preview_errors(p: Seq<(SourceType, Result<Vec<String>, PikeError>)>) -> Seq<
    (SourceType, PikeError),
>
    decreases p.len(),
{
    if p.len() == 0 {
        Seq::<(SourceType, PikeError)>::empty()
    } else {
        preview_errors(p.drop_last()) + match p.last().1 {
            Ok(_) => Seq::<(SourceType, PikeError)>::empty(),
            Err(e) => seq![(p.last().0, e)],
        }
    }
}

// ---------------------------------------------------------------------------
// Names derived from repository URLs.
// ---------------------------------------------------------------------------

/// The URL without a leading `https://` or `http://`.
pub open spec fn strip_scheme(url: Seq<char>) -> Seq<char> {
    if starts_with(url, "https://"@) {
        url.skip(8)
    } else if starts_with(url, "http://"@) {
        url.skip(7)
    } else {
        url
    }
}

/// `trim_end_matches(c)`: every trailing `c` removed.
pub open spec fn trim_trailing(s: Seq<char>, c: char) -> Seq<char>
    decreases s.len(),
{
    if s.len() > 0 && s.last() == c {
        trim_trailing(s.drop_last(), c)
    } else {
        s
    }
}

/// What `split(c).next()` gives: the text before the first `c`, or all of it.
pub open spec fn first_piece(s: Seq<char>, c: char) -> Seq<char> {
    match split_once_char(s, c) {
        Some((a, _)) => a,
        None => s,
    }
}

/// What `rsplit(c).next()` gives: the text after the last `c`, or all of it.
pub open spec fn last_piece(s: Seq<char>, c: char) -> Seq<char> {
    match rsplit_once_char(s, c) {
        Some((_, b)) => b,
        None => s,
    }
}

/// A repository name taken from its URL: the last path segment up to its first
/// dot, or, where that is empty, the host up to its first dot.
pub open spec fn name_from_url_spec(url: Seq<char>) -> Seq<char> {
    let stripped = trim_trailing(strip_scheme(url), '/');
    let name = first_piece(last_piece(stripped, '/'), '.');
    if name.len() == 0 {
        first_piece(first_piece(stripped, '/'), '.')
    } else {
        name
    }
}

fn first_piece_chars(v: &[char], c: char) -> (r: Vec<char>)
    ensures
        r@ == first_piece(v@, c),
{
    match split_once_ch(v, c) {
        Some((a, _)) => a,
        None => copy_range(v, 0, v.len()),
    }
}

fn last_piece_chars(v: &[char], c: char) -> (r: Vec<char>)
    ensures
        r@ == last_piece(v@, c),
{
    match rsplit_once_ch(v, c) {
        Some((_, b)) => b,
        None => copy_range(v, 0, v.len()),
    }
}

pub fn name_from_url(url: &str) -> (r: String)
    ensures
        r@ == name_from_url_spec(url@),
{
    let v = chars_of(url);
    proof {
        reveal_strlit("https://");
        reveal_strlit("http://");
    }
    let start: usize = if has_prefix(&v, "https://") {
        8
    } else if has_prefix(&v, "http://") {
        7
    } else {
        0
    };
    let rest = copy_range(&v, start, v.len());
    proof {
        assert(rest@ =~= strip_scheme(v@));
    }
    let mut end = rest.len();
    proof {
        assert(rest@.take(end as int) =~= rest@);
    }
    while end > 0 && rest[end - 1] == '/'
        invariant
            end <= rest.len(),
            trim_trailing(rest@.take(end as int), '/') == trim_trailing(rest@, '/'),
        decreases end,
    {
        proof {
            assert(rest@.take(end as int).drop_last() =~= rest@.take(end - 1));
        }
        end = end - 1;
    }
    let stripped = copy_range(&rest, 0, end);
    proof {
        assert(stripped@ =~= rest@.take(end as int));
    }
    let last = last_piece_chars(&stripped, '/');
    let name = first_piece_chars(&last, '.');
    if name.len() == 0 {
        let host = first_piece_chars(&stripped, '/');
        let out = first_piece_chars(&host, '.');
        string_of(&out)
    } else {
        string_of(&name)
    }
}

// ---------------------------------------------------------------------------
// Settings values.
// ---------------------------------------------------------------------------

/// The next number of kernels to keep: one to five, then round again.
pub fn next_keep_kernels(current: usize) -> (r: usize)
    ensures
        r == (if current >= 5 {
            1
        } else {
            current + 1
        }),
{
    if current >= 5 {
        1
    } else {
        current + 1
    }
}

/// An interval in whole hours, else whole minutes, else seconds.
pub open spec fn interval_text(secs: nat) -> Seq<char> {
    if secs % 3600 == 0 {
        decimal(secs / 3600) + "h"@
    } else if secs % 60 == 0 {
        decimal(secs / 60) + "min"@
    } else {
        decimal(secs) + "s"@
    }
}

pub fn format_interval(secs: u64) -> (r: String)
    ensures
        r@ == interval_text(secs as nat),
{
    let mut v: Vec<char>;
    if secs % 3600 == 0 {
        v = decimal_chars(secs / 3600);
        push_str(&mut v, "h");
    } else if secs % 60 == 0 {
        v = decimal_chars(secs / 60);
        push_str(&mut v, "min");
    } else {
        v = decimal_chars(secs);
        push_str(&mut v, "s");
    }
    string_of(&v)
}

// ---------------------------------------------------------------------------
// Status lines.
// ---------------------------------------------------------------------------

/// `N source` for each source with updates, in source order.
pub open spec fn count_parts(counts: Seq<(SourceType, usize)>) -> Seq<Seq<char>> {
    let one = |st: SourceType|
        if count_of(counts, st) > 0 {
            seq![decimal(count_of(counts, st) as nat) + " "@ + display_name_spec(st)]
        } else {
            Seq::<Seq<char>>::empty()
        };
    one(SourceType::Dnf) + one(SourceType::Flatpak) + one(SourceType::Apt)
}

fn count_part(status: &StatusSummary, st: SourceType, parts: &mut Vec<Vec<char>>)
    ensures
        views(final(parts)@) == views(old(parts)@) + (if count_of(status.counts@, st) > 0 {
            seq![decimal(count_of(status.counts@, st) as nat) + " "@ + display_name_spec(st)]
        } else {
            Seq::<Seq<char>>::empty()
        }),
{
    let c = status.count(st);
    if c > 0 {
        let mut v = decimal_chars(c as u64);
        push_str(&mut v, " ");
        push_str(&mut v, st.display_name());
        proof {
            crate::text::lemma_views_push(parts@, v);
        }
        parts.push(v);
    } else {
        proof {
            assert(views(parts@) + Seq::<Seq<char>>::empty() =~= views(parts@));
        }
    }
}

/// The per-source counts joined by ` · `, or nothing where no source has updates
/// (the caller then shows the total in words).
pub fn format_update_counts(status: &StatusSummary) -> (r: Option<String>)
    ensures
        match r {
            Some(s) => count_parts(status.counts@).len() > 0 && s@ == join(
                count_parts(status.counts@),
                " \u{b7} "@,
            ),
            None => count_parts(status.counts@).len() == 0,
        },
{
    let mut parts: Vec<Vec<char>> = Vec::new();
    proof {
        assert(views(parts@) =~= Seq::<Seq<char>>::empty());
    }
    count_part(status, SourceType::Dnf, &mut parts);
    count_part(status, SourceType::Flatpak, &mut parts);
    count_part(status, SourceType::Apt, &mut parts);
    proof {
        assert(views(parts@) =~= count_parts(status.counts@));
    }
    if parts.len() == 0 {
        None
    } else {
        let out = crate::text::join_chars(&parts, " \u{b7} ");
        Some(string_of(&out))
    }
}

/// How many updates of each source the status bar tooltip lists.
pub const WAYBAR_MAX_PER_SOURCE: usize = 3;

/// What the status bar shows: its text, its tooltip and its style class.
pub struct WaybarOutput {
    pub text: String,
    pub tooltip: String,
    pub class: &'static str,
}

/// The status bar output of a summary: the up-to-date icon and message when there
/// are no updates, else the updates icon with the total and the grouped updates;
/// the line with the time of the last check, where there is one, goes last.
pub fn waybar_output(
    status: &StatusSummary,
    style: crate::config::IconStyle,
    up_to_date: &str,
    checked_line: Option<&str>,
) -> (r: WaybarOutput)
    ensures
        ({
            let icons = if style == crate::config::IconStyle::Nerd {
                ("\u{f012c}"@, "\u{f03d7}"@)
            } else {
                ("\u{2713}"@, "\u{2b06}"@)
            };
            if status.total == 0 {
                &&& r.text@ == icons.0
                &&& r.class@ == "up-to-date"@
                &&& r.tooltip@ == match checked_line {
                    Some(line) => up_to_date@ + "\n"@ + line@,
                    None => up_to_date@,
                }
            } else {
                let base = join(sections(update_views(status.updates@), 3), "\n\n"@);
                &&& r.text@ == icons.1 + "  "@ + decimal(status.total as nat)
                &&& r.class@ == "has-updates"@
                &&& r.tooltip@ == match checked_line {
                    Some(line) => base + "\n\n"@ + line@,
                    None => base,
                }
            }
        }),
{
    let (up_icon, has_icon, _) = waybar_icons(style);
    if status.total == 0 {
        let mut t = chars_of(up_to_date);
        match checked_line {
            Some(line) => {
                push_str(&mut t, "\n");
                push_str(&mut t, line);
            },
            None => {},
        }
        WaybarOutput { text: string_of(&chars_of(up_icon)), tooltip: string_of(&t), class: "up-to-date" }
    } else {
        let base = format_grouped_updates(status.updates.as_slice(), WAYBAR_MAX_PER_SOURCE);
        let mut t = chars_of(base.as_str());
        match checked_line {
            Some(line) => {
                push_str(&mut t, "\n\n");
                push_str(&mut t, line);
            },
            None => {},
        }
        let mut text = chars_of(has_icon);
        push_str(&mut text, "  ");
        let d = decimal_chars(status.total as u64);
        push_all(&mut text, &d);
        WaybarOutput { text: string_of(&text), tooltip: string_of(&t), class: "has-updates" }
    }
}

// ---------------------------------------------------------------------------
// The background service.
// ---------------------------------------------------------------------------

/// A request to the background service.
#[derive(Debug, Clone, Copy, PartialEq, Eq, Structural)]
pub enum DaemonRequest {
    Status,
    Check { notify: bool, notify_always: bool },
    Subscribe,
    ReloadConfig,
}

impl DaemonRequest {
    /// How long a client waits for the answer: a check may take two minutes, the
    /// rest five seconds.
    pub fn read_timeout_secs(&self) -> (r: u64)
        ensures
            r == (if *self is Check {
                120u64
            } else {
                5u64
            }),
    {
        match self {
            DaemonRequest::Check { .. } => 120,
            _ => 5,
        }
    }
}

/// The answer of the background service.
pub struct DaemonResponse {
    pub ok: bool,
    pub status: Option<StatusSummary>,
    pub error: Option<String>,
}

impl DaemonResponse {
    pub fn ok() -> (r: Self)
        ensures
            r.ok && r.status is None && r.error is None,
    {
        DaemonResponse { ok: true, status: None, error: None }
    }

    pub fn success(status: StatusSummary) -> (r: Self)
        ensures
            r.ok && r.status == Some(status) && r.error is None,
    {
        DaemonResponse { ok: true, status: Some(status), error: None }
    }

    pub fn err(msg: String) -> (r: Self)
        ensures
            !r.ok && r.status is None && r.error == Some(msg),
    {
        DaemonResponse { ok: false, status: None, error: Some(msg) }
    }
}

/// The shortest check interval the service accepts, in seconds.
pub const MIN_DAEMON_INTERVAL: u64 = 10;

/// The interval the service runs at: the configured one, at least ten seconds.
pub fn daemon_interval(configured: u64) -> (r: u64)
    ensures
        r == (if configured < 10 {
            10
        } else {
            configured
        }),
{
    if configured < MIN_DAEMON_INTERVAL {
        MIN_DAEMON_INTERVAL
    } else {
        configured
    }
}

/// Whether a finished check is announced: always when asked to, else when asked to
/// and there are updates whose total differs from the last check (or there was none).
pub fn should_notify(previous_total: Option<usize>, total: usize, notify: bool, notify_always: bool) -> (r:
    bool)
    ensures
        r == (notify_always || (notify && total > 0 && match previous_total {
            None => true,
            Some(p) => p != total,
        })),
{
    if notify_always {
        true
    } else if notify && total > 0 {
        match previous_total {
            None => true,
            Some(p) => p != total,
        }
    } else {
        false
    }
}

/// The service settings after the configuration is read again: the new interval
/// (at least ten seconds), whether it changed, and the new notify flag.
pub fn reload_daemon_settings(current_interval: u64, configured_interval: u64, notify: bool) -> (r: (
    u64,
    bool,
    bool,
))
    ensures
        r.0 == (if configured_interval < 10 {
            10
        } else {
            configured_interval
        }),
        r.1 == (r.0 != current_interval),
        r.2 == notify,
{
    let interval = daemon_interval(configured_interval);
    (interval, interval != current_interval, notify)
}

} // verus!
