//! The lists of the terminal interface (search results, installed packages,
//! updates, repositories): which rows a source filter and a typed query leave, and
//! how the source filter cycles.
use vstd::prelude::*;

use crate::config::{source_enabled, SourcesConfig};
use crate::package::{
    binary_name_spec, display_name_spec, methods_for_spec, opt_view, Package, PackageUpdate,
    RepoMethod, Repository, SourceType,
};
use crate::text::{
    chars_of, contains, contains_chars, decimal, decimal_chars, join, push_all, push_str,
    string_of, to_lowercase, unicode_lower, views,
};

verus! {

/// A row of a list: the source it belongs to and whether a lowercased query
/// matches it.
pub trait Listed: Sized {
    spec fn listed_source(&self) -> SourceType;

    spec fn listed_match(&self, query: Seq<char>) -> bool;

    fn source_of(&self) -> (r: SourceType)
        ensures
            r == self.listed_source(),
    ;

    fn matches_query(&self, query: &[char]) -> (r: bool)
        ensures
            r == self.listed_match(query@),
    ;
}

/// Whether the lowercased text contains the query.
pub open spec fn lower_contains(text: Seq<char>, query: Seq<char>) -> bool {
    contains(unicode_lower(text), query)
}

fn lower_contains_exec(text: &str, query: &[char]) -> (r: bool)
    ensures
        r == lower_contains(text@, query@),
{
    let t = chars_of(text);
    let lower = to_lowercase(&t);
    contains_chars(&lower, query)
}

impl Listed for Package {
    /// A package matches by its name or its description.
    open spec fn listed_source(&self) -> SourceType {
        self.source
    }

    open spec fn listed_match(&self, query: Seq<char>) -> bool {
        lower_contains(self.name@, query) || (opt_view(self.description) matches Some(d)
            && lower_contains(d, query))
    }

    fn source_of(&self) -> (r: SourceType) {
        self.source
    }

    fn matches_query(&self, query: &[char]) -> (r: bool) {
        if lower_contains_exec(self.name.as_str(), query) {
            return true;
        }
        match &self.description {
            Some(d) => lower_contains_exec(d.as_str(), query),
            None => false,
        }
    }
}

impl Listed for PackageUpdate {
    /// An update matches by its package name.
    open spec fn listed_source(&self) -> SourceType {
        self.source
    }

    open spec fn listed_match(&self, query: Seq<char>) -> bool {
        lower_contains(self.name@, query)
    }

    fn source_of(&self) -> (r: SourceType) {
        self.source
    }

    fn matches_query(&self, query: &[char]) -> (r: bool) {
        lower_contains_exec(self.name.as_str(), query)
    }
}

impl Listed for Repository {
    /// A repository matches by its ID or its name.
    open spec fn listed_source(&self) -> SourceType {
        self.source
    }

    open spec fn listed_match(&self, query: Seq<char>) -> bool {
        lower_contains(self.id@, query) || lower_contains(self.name@, query)
    }

    fn source_of(&self) -> (r: SourceType) {
        self.source
    }

    fn matches_query(&self, query: &[char]) -> (r: bool) {
        lower_contains_exec(self.id.as_str(), query) || lower_contains_exec(
            self.name.as_str(),
            query,
        )
    }
}

/// A list with its filters and loading state.
pub struct ListTabState<T> {
    pub items: Vec<T>,
    pub filter: String,
    pub source_filter: Option<SourceType>,
    pub loading: bool,
    pub loaded: bool,
}

/// Whether a row passes the source filter and the (lowercased) query; an empty
/// query passes every row.
pub open spec fn row_shown<T: Listed>(x: T, source_filter: Option<SourceType>, query: Seq<char>) -> bool {
    (match source_filter {
        Some(st) => x.listed_source() == st,
        None => true,
    }) && (query.len() == 0 || x.listed_match(query))
}

/// The indices of the rows shown, in order.
pub open spec fn shown_indices<T: Listed>(
    items: Seq<T>,
    source_filter: Option<SourceType>,
    query: Seq<char>,
) -> Seq<int>
    decreases items.len(),
{
    if items.len() == 0 {
        Seq::<int>::empty()
    } else {
        let before = shown_indices(items.drop_last(), source_filter, query);
        if row_shown(items.last(), source_filter, query) {
            before.push(items.len() - 1)
        } else {
            before
        }
    }
}

/// The rows shown are exactly the rows that pass the filters, in order: every index
/// is a row of the list that passes, they increase, and every row that passes is
/// among them.
pub proof fn lemma_shown_indices<T: Listed>(items: Seq<T>, source_filter: Option<SourceType>, query: Seq<char>)
    ensures
        forall|k: int|
            0 <= k < shown_indices(items, source_filter, query).len() ==> {
                let i = #[trigger] shown_indices(items, source_filter, query)[k];
                0 <= i < items.len() && row_shown(items[i], source_filter, query)
            },
        forall|k: int, l: int|
            0 <= k < l < shown_indices(items, source_filter, query).len() ==> #[trigger] shown_indices(
                items,
                source_filter,
                query,
            )[k] < #[trigger] shown_indices(items, source_filter, query)[l],
        forall|i: int|
            0 <= i < items.len() && row_shown(#[trigger] items[i], source_filter, query) ==> shown_indices(
                items,
                source_filter,
                query,
            ).contains(i),
    decreases items.len(),
{
    if items.len() > 0 {
        let prev = items.drop_last();
        lemma_shown_indices(prev, source_filter, query);
        let before = shown_indices(prev, source_filter, query);
        let now = shown_indices(items, source_filter, query);
        assert forall|k: int| 0 <= k < before.len() implies #[trigger] before[k] < items.len() - 1 by {
            assert(prev[before[k]] == items[before[k]]);
        }
        assert forall|i: int|
            0 <= i < items.len() && row_shown(#[trigger] items[i], source_filter, query) implies now.contains(
            i,
        ) by {
            if i < items.len() - 1 {
                assert(prev[i] == items[i]);
                let k = choose|k: int| 0 <= k < before.len() && before[k] == i;
                if row_shown(items.last(), source_filter, query) {
                    assert(now[k] == i);
                } else {
                    assert(now[k] == i);
                }
            } else {
                assert(now[now.len() - 1] == i);
            }
        }
        assert forall|k: int| 0 <= k < now.len() implies {
            let i = #[trigger] now[k];
            0 <= i < items.len() && row_shown(items[i], source_filter, query)
        } by {
            if k < before.len() {
                assert(now[k] == before[k]);
                assert(prev[before[k]] == items[before[k]]);
            }
        }
    }
}

/// The query a list is filtered by: its filter lowercased, or none where the list
/// does not filter by text.
pub open spec fn list_query<T>(list: ListTabState<T>, by_query: bool) -> Seq<char> {
    if by_query {
        unicode_lower(list.filter@)
    } else {
        Seq::<char>::empty()
    }
}

/// The filter after the current one: none, then each source in source order, then
/// none again.
pub open spec fn next_source_filter(f: Option<SourceType>) -> Option<SourceType> {
    match f {
        None => Some(SourceType::Dnf),
        Some(SourceType::Dnf) => Some(SourceType::Flatpak),
        Some(SourceType::Flatpak) => Some(SourceType::Apt),
        Some(SourceType::Apt) => None,
    }
}

/// The row selected after the rows shown change: the first, if any.
pub open spec fn selection_for(count: nat) -> Option<usize> {
    if count == 0 {
        None
    } else {
        Some(0usize)
    }
}

impl<T: Listed> ListTabState<T> {
    pub fn new() -> (r: Self)
        ensures
            r.items@.len() == 0,
            r.filter@.len() == 0,
            r.source_filter is None,
            !r.loading,
            !r.loaded,
    {
        ListTabState {
            items: Vec::new(),
            filter: String::new(),
            source_filter: None,
            loading: false,
            loaded: false,
        }
    }

    /// The indices of the rows that pass the filters; `by_query` is false for a list
    /// whose typed filter does not apply (the search results).
    pub fn filtered_indices(&self, by_query: bool) -> (r: Vec<usize>)
        ensures
            r@.map_values(|i: usize| i as int) == shown_indices(
                self.items@,
                self.source_filter,
                list_query(*self, by_query),
            ),
    {
        let query: Vec<char> = if by_query {
            let f = chars_of(self.filter.as_str());
            to_lowercase(&f)
        } else {
            Vec::new()
        };
        let mut out: Vec<usize> = Vec::new();
        let mut i: usize = 0;
        proof {
            assert(self.items@.take(0) =~= Seq::<T>::empty());
            assert(out@.map_values(|i: usize| i as int) =~= Seq::<int>::empty());
        }
        while i < self.items.len()
            invariant
                i <= self.items.len(),
                query@ == list_query(*self, by_query),
                out@.map_values(|i: usize| i as int) == shown_indices(
                    self.items@.take(i as int),
                    self.source_filter,
                    query@,
                ),
            decreases self.items.len() - i,
        {
            let item = &self.items[i];
            proof {
                assert(self.items@.take(i + 1).drop_last() =~= self.items@.take(i as int));
                assert(self.items@.take(i + 1).last() == self.items@[i as int]);
            }
            let pass_source = match self.source_filter {
                Some(st) => item.source_of() == st,
                None => true,
            };
            let shown = pass_source && (query.len() == 0 || item.matches_query(&query));
            if shown {
                proof {
                    assert(out@.push(i).map_values(|i: usize| i as int) =~= out@.map_values(
                        |i: usize| i as int,
                    ).push(i as int));
                }
                out.push(i);
            }
            i = i + 1;
        }
        proof {
            assert(self.items@.take(self.items@.len() as int) =~= self.items@);
        }
        out
    }

    /// Moves the source filter on and returns the row to select.
    pub fn cycle_source_filter(&mut self, by_query: bool) -> (r: Option<usize>)
        ensures
            final(self).source_filter == next_source_filter(old(self).source_filter),
            final(self).items == old(self).items,
            final(self).filter == old(self).filter,
            final(self).loading == old(self).loading,
            final(self).loaded == old(self).loaded,
            r == selection_for(
                shown_indices(
                    final(self).items@,
                    final(self).source_filter,
                    list_query(*final(self), by_query),
                ).len(),
            ),
    {
        self.source_filter = match self.source_filter {
            None => Some(SourceType::Dnf),
            Some(SourceType::Dnf) => Some(SourceType::Flatpak),
            Some(SourceType::Flatpak) => Some(SourceType::Apt),
            Some(SourceType::Apt) => None,
        };
        let shown = self.filtered_indices(by_query);
        if shown.len() == 0 {
            None
        } else {
            Some(0)
        }
    }
}

/// How many rows of a list belong to a source.
pub open spec fn listed_count<T: Listed>(items: Seq<T>, st: SourceType) -> nat
    decreases items.len(),
{
    if items.len() == 0 {
        0
    } else {
        listed_count(items.drop_last(), st) + if items.last().listed_source() == st {
            1nat
        } else {
            0nat
        }
    }
}

proof fn lemma_listed_count_le<T: Listed>(items: Seq<T>, st: SourceType)
    ensures
        listed_count(items, st) <= items.len(),
    decreases items.len(),
{
    if items.len() > 0 {
        lemma_listed_count_le(items.drop_last(), st);
    }
}

fn count_of_source<T: Listed>(items: &[T], st: SourceType) -> (r: usize)
    ensures
        r == listed_count(items@, st),
{
    let mut n: usize = 0;
    let mut i: usize = 0;
    proof {
        assert(items@.take(0) =~= Seq::<T>::empty());
    }
    while i < items.len()
        invariant
            i <= items.len(),
            n == listed_count(items@.take(i as int), st),
        decreases items.len() - i,
    {
        proof {
            assert(items@.take(i + 1).drop_last() =~= items@.take(i as int));
            assert(items@.take(i + 1).last() == items@[i as int]);
            lemma_listed_count_le(items@.take(i as int), st);
        }
        if items[i].source_of() == st {
            n = n + 1;
        }
        i = i + 1;
    }
    proof {
        assert(items@.take(items@.len() as int) =~= items@);
    }
    n
}

/// `N source` for each source that has rows, in source order.
pub open spec fn listed_parts<T: Listed>(items: Seq<T>) -> Seq<Seq<char>> {
    let one = |st: SourceType|
        if listed_count(items, st) > 0 {
            seq![decimal(listed_count(items, st)) + " "@ + display_name_spec(st)]
        } else {
            Seq::<Seq<char>>::empty()
        };
    one(SourceType::Dnf) + one(SourceType::Flatpak) + one(SourceType::Apt)
}

/// The summary of an unfiltered list: `N noun`, followed by the counts per source in
/// brackets where there are any.
pub open spec fn count_line_spec<T: Listed>(items: Seq<T>, noun: Seq<char>) -> Seq<char> {
    let head = decimal(items.len()) + " "@ + noun;
    if listed_parts(items).len() == 0 {
        head
    } else {
        head + " ("@ + join(listed_parts(items), " \u{b7} "@) + ")"@
    }
}

fn push_part<T: Listed>(items: &[T], st: SourceType, parts: &mut Vec<Vec<char>>)
    ensures
        views(final(parts)@) == views(old(parts)@) + (if listed_count(items@, st) > 0 {
            seq![decimal(listed_count(items@, st)) + " "@ + display_name_spec(st)]
        } else {
            Seq::<Seq<char>>::empty()
        }),
{
    let c = count_of_source(items, st);
    if c > 0 {
        let mut v = decimal_chars(c as u64);
        push_str(&mut v, " ");
        push_str(&mut v, st.display_name());
        proof {
            crate::text::lemma_views_push(parts@, v);
        }
        parts.push(v);
    } else {
        proof {
            assert(views(parts@) + Seq::<Seq<char>>::empty() =~= views(parts@));
        }
    }
}

/// The line above a list: none while a filter hides rows (the interface then says how
/// many of how many are shown), else the count with the counts per source.
pub fn format_count_line<T: Listed>(items: &[T], shown: usize, noun: &str) -> (r: Option<String>)
    ensures
        (shown as int) < items@.len() ==> r is None,
        (shown as int) >= items@.len() ==> (r matches Some(s) && s@ == count_line_spec(items@, noun@)),
{
    if shown < items.len() {
        return None;
    }
    let mut parts: Vec<Vec<char>> = Vec::new();
    proof {
        assert(views(parts@) =~= Seq::<Seq<char>>::empty());
    }
    push_part(items, SourceType::Dnf, &mut parts);
    push_part(items, SourceType::Flatpak, &mut parts);
    push_part(items, SourceType::Apt, &mut parts);
    proof {
        assert(views(parts@) =~= listed_parts(items@));
    }
    let mut line = decimal_chars(items.len() as u64);
    push_str(&mut line, " ");
    push_str(&mut line, noun);
    if parts.len() > 0 {
        push_str(&mut line, " (");
        let joined = crate::text::join_chars(&parts, " \u{b7} ");
        push_all(&mut line, &joined);
        push_str(&mut line, ")");
    }
    Some(string_of(&line))
}

/// The sources that are enabled but whose tool was not found, by binary name.
pub open spec fn missing_spec(config: SourcesConfig, active: Seq<SourceType>) -> Seq<Seq<char>> {
    let one = |st: SourceType|
        if source_enabled(config, st) && !active.contains(st) {
            seq![binary_name_spec(st)]
        } else {
            Seq::<Seq<char>>::empty()
        };
    one(SourceType::Dnf) + one(SourceType::Flatpak) + one(SourceType::Apt)
}

fn has_source(active: &[SourceType], st: SourceType) -> (r: bool)
    ensures
        r == active@.contains(st),
{
    let mut i: usize = 0;
    while i < active.len()
        invariant
            i <= active.len(),
            forall|j: int| 0 <= j < i ==> active@[j] != st,
        decreases active.len() - i,
    {
        if active[i] == st {
            proof {
                assert(active@[i as int] == st);
            }
            return true;
        }
        i = i + 1;
    }
    false
}

/// The tools of the enabled sources that were not found.
pub fn missing_backends(config: &SourcesConfig, active: &[SourceType]) -> (r: Vec<&'static str>)
    ensures
        r@.map_values(|s: &'static str| s@) == missing_spec(*config, active@),
{
    let mut out: Vec<&'static str> = Vec::new();
    if config.enabled(SourceType::Dnf) && !has_source(active, SourceType::Dnf) {
        out.push(SourceType::Dnf.binary_name());
    }
    if config.enabled(SourceType::Flatpak) && !has_source(active, SourceType::Flatpak) {
        out.push(SourceType::Flatpak.binary_name());
    }
    if config.enabled(SourceType::Apt) && !has_source(active, SourceType::Apt) {
        out.push(SourceType::Apt.binary_name());
    }
    proof {
        assert(out@.map_values(|s: &'static str| s@) =~= missing_spec(*config, active@));
    }
    out
}

/// Every (source, method) pair the add form offers: each active source with its
/// methods, in order.
pub open spec fn picker_spec(active: Seq<SourceType>) -> Seq<(SourceType, RepoMethod)>
    decreases active.len(),
{
    if active.len() == 0 {
        Seq::<(SourceType, RepoMethod)>::empty()
    } else {
        picker_spec(active.drop_last()) + methods_for_spec(active.last()).map_values(
            |m: RepoMethod| (active.last(), m),
        )
    }
}

pub fn picker_entries(active: &[SourceType]) -> (r: Vec<(SourceType, RepoMethod)>)
    ensures
        r@ == picker_spec(active@),
{
    let mut out: Vec<(SourceType, RepoMethod)> = Vec::new();
    let mut i: usize = 0;
    proof {
        assert(active@.take(0) =~= Seq::<SourceType>::empty());
    }
    while i < active.len()
        invariant
            i <= active.len(),
            out@ == picker_spec(active@.take(i as int)),
        decreases active.len() - i,
    {
        let st = active[i];
        proof {
            assert(active@.take(i + 1).drop_last() =~= active@.take(i as int));
            assert(active@.take(i + 1).last() == st);
        }
        let methods = RepoMethod::methods_for(st);
        let ghost before = out@;
        let mut k: usize = 0;
        while k < methods.len()
            invariant
                k <= methods.len(),
                methods@ == methods_for_spec(st),
                out@ == before + methods@.take(k as int).map_values(
                    |m: RepoMethod| (st, m),
                ),
            decreases methods.len() - k,
        {
            proof {
                assert(methods@.take(k + 1).map_values(|m: RepoMethod| (st, m)) =~= methods@.take(
                    k as int,
                ).map_values(|m: RepoMethod| (st, m)).push((st, methods@[k as int])));
            }
            out.push((st, methods[k]));
            k = k + 1;
        }
        proof {
            assert(methods@.take(methods@.len() as int) =~= methods@);
        }
        i = i + 1;
    }
    proof {
        assert(active@.take(active@.len() as int) =~= active@);
    }
    out
}

// ---------------------------------------------------------------------------
// What is installed.
// ---------------------------------------------------------------------------

/// The installed packages by source and name, to mark search results.
pub struct InstalledSet {
    entries: Vec<(SourceType, String)>,
}

pub open spec fn entry_views(s: Seq<(SourceType, String)>) -> Seq<(SourceType, Seq<char>)> {
    s.map_values(|e: (SourceType, String)| (e.0, e.1@))
}

impl View for InstalledSet {
    type V = Set<(SourceType, Seq<char>)>;

    closed spec fn view(&self) -> Set<(SourceType, Seq<char>)> {
        entry_views(self.entries@).to_set()
    }
}

proof fn lemma_push_contains<A>(s: Seq<A>, y: A, x: A)
    ensures
        s.push(y).contains(x) <==> (s.contains(x) || x == y),
{
    if s.contains(x) {
        let k = choose|k: int| 0 <= k < s.len() && s[k] == x;
        assert(s.push(y)[k] == x);
    }
    if x == y {
        assert(s.push(y)[s.len() as int] == y);
    }
    if s.push(y).contains(x) {
        let k = choose|k: int| 0 <= k < s.push(y).len() && s.push(y)[k] == x;
        if k < s.len() {
            assert(s[k] == x);
        }
    }
}

fn same_entry(e: &(SourceType, String), source: SourceType, name: &[char]) -> (r: bool)
    ensures
        r == ((e.0, e.1@) == (source, name@)),
{
    e.0 == source && crate::text::chars_eq(&chars_of(e.1.as_str()), name)
}

impl InstalledSet {
    pub fn new() -> (r: Self)
        ensures
            r@ == Set::<(SourceType, Seq<char>)>::empty(),
    {
        let r = InstalledSet { entries: Vec::new() };
        proof {
            assert(entry_views(r.entries@).to_set() =~= Set::<(SourceType, Seq<char>)>::empty());
        }
        r
    }

    /// The set of the listed packages.
    pub fn rebuild(packages: &[Package]) -> (r: Self)
        ensures
            forall|st: SourceType, n: Seq<char>|
                r@.contains((st, n)) <==> exists|i: int|
                    0 <= i < packages@.len() && #[trigger] packages@[i].source == st
                        && packages@[i].name@ == n,
    {
        let mut entries: Vec<(SourceType, String)> = Vec::new();
        let mut i: usize = 0;
        while i < packages.len()
            invariant
                i <= packages.len(),
                entries@.len() == i,
                forall|k: int| 0 <= k < i ==> #[trigger] entries@[k] == (packages@[k].source, packages@[k].name),
            decreases packages.len() - i,
        {
            entries.push((packages[i].source, packages[i].name.clone()));
            i = i + 1;
        }
        let r = InstalledSet { entries };
        proof {
            assert forall|st: SourceType, n: Seq<char>| r@.contains((st, n)) <==> exists|i: int|
                0 <= i < packages@.len() && #[trigger] packages@[i].source == st && packages@[i].name@
                    == n by {
                let ev = entry_views(r.entries@);
                if ev.to_set().contains((st, n)) {
                    assert(ev.contains((st, n)));
                    let k = choose|k: int| 0 <= k < ev.len() && ev[k] == (st, n);
                    assert(r.entries@[k] == (packages@[k].source, packages@[k].name));
                    assert(packages@[k].source == st);
                }
                if exists|i: int|
                    0 <= i < packages@.len() && #[trigger] packages@[i].source == st && packages@[i].name@
                        == n {
                    let k = choose|i: int|
                        0 <= i < packages@.len() && #[trigger] packages@[i].source == st
                            && packages@[i].name@ == n;
                    assert(ev[k] == (st, n));
                    assert(ev.contains((st, n)));
                }
            }
        }
        r
    }

    pub fn is_installed(&self, name: &str, source: SourceType) -> (r: bool)
        ensures
            r == self@.contains((source, name@)),
    {
        let ghost ev = entry_views(self.entries@);
        let key = chars_of(name);
        let mut i: usize = 0;
        while i < self.entries.len()
            invariant
                i <= self.entries.len(),
                ev == entry_views(self.entries@),
                key@ == name@,
                forall|k: int| 0 <= k < i ==> ev[k] != (source, name@),
            decreases self.entries.len() - i,
        {
            if same_entry(&self.entries[i], source, &key) {
                proof {
                    assert(ev[i as int] == (source, name@));
                    assert(ev.contains((source, name@)));
                }
                return true;
            }
            i = i + 1;
        }
        proof {
            if ev.to_set().contains((source, name@)) {
                assert(ev.contains((source, name@)));
            }
        }
        false
    }

    /// Marks a package installed.
    pub fn mark_installed(&mut self, name: &str, source: SourceType)
        ensures
            final(self)@ == old(self)@.insert((source, name@)),
    {
        if !self.is_installed(name, source) {
            let ghost before = entry_views(self.entries@);
            self.entries.push((source, string_of(&chars_of(name))));
            proof {
                assert(entry_views(self.entries@) =~= before.push((source, name@)));
                assert forall|x: (SourceType, Seq<char>)|
                    #[trigger] entry_views(self.entries@).to_set().contains(x)
                        == before.to_set().insert((source, name@)).contains(x) by {
                    lemma_push_contains(before, (source, name@), x);
                }
                assert(entry_views(self.entries@).to_set() =~= before.to_set().insert((source, name@)));
            }
        } else {
            proof {
                assert(old(self)@.insert((source, name@)) =~= old(self)@);
            }
        }
    }

    /// Marks a package removed.
    pub fn mark_removed(&mut self, name: &str, source: SourceType)
        ensures
            final(self)@ == old(self)@.remove((source, name@)),
    {
        let ghost ev = entry_views(self.entries@);
        let key = chars_of(name);
        let mut kept: Vec<(SourceType, String)> = Vec::new();
        let mut i: usize = 0;
        while i < self.entries.len()
            invariant
                i <= self.entries.len(),
                ev == entry_views(self.entries@),
                key@ == name@,
                forall|x: (SourceType, Seq<char>)|
                    entry_views(kept@).contains(x) <==> (ev.take(i as int).contains(x) && x != (
                        source,
                        name@,
                    )),
            decreases self.entries.len() - i,
        {
            let e = &self.entries[i];
            let ghost kv = entry_views(kept@);
            proof {
                assert(ev.take(i + 1) =~= ev.take(i as int).push(ev[i as int]));
                assert forall|x: (SourceType, Seq<char>)| #[trigger] ev.take(i + 1).contains(x) == (ev.take(
                    i as int,
                ).contains(x) || x == ev[i as int]) by {
                    lemma_push_contains(ev.take(i as int), ev[i as int], x);
                }
            }
            if !same_entry(e, source, &key) {
                kept.push((e.0, e.1.clone()));
                proof {
                    assert(entry_views(kept@) =~= kv.push(ev[i as int]));
                    assert forall|x: (SourceType, Seq<char>)| #[trigger] entry_views(kept@).contains(x)
                        == (kv.contains(x) || x == ev[i as int]) by {
                        lemma_push_contains(kv, ev[i as int], x);
                    }
                }
            }
            i = i + 1;
        }
        proof {
            assert(ev.take(ev.len() as int) =~= ev);
            assert(entry_views(kept@).to_set() =~= ev.to_set().remove((source, name@)));
        }
        self.entries = kept;
    }
}

/// A package marked installed reads as installed and one marked removed as not
/// installed, and marking one package leaves every other as it was.
pub proof fn lemma_installed_marks(
    s: Set<(SourceType, Seq<char>)>,
    source: SourceType,
    name: Seq<char>,
    other: (SourceType, Seq<char>),
)
    ensures
        s.insert((source, name)).contains((source, name)),
        !s.remove((source, name)).contains((source, name)),
        other != (source, name) ==> s.insert((source, name)).contains(other) == s.contains(other),
        other != (source, name) ==> s.remove((source, name)).contains(other) == s.contains(other),
{
}

} // verus!
