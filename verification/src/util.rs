//! Display helpers and the ordering of search results: shortening of text, the
//! relevance rank of a package for a query, and the orders by source and relevance.
use vstd::prelude::*;

use crate::config::{arches_of, Config};
use crate::order::{chars_lt, lemma_lt_asym, lemma_lt_irrefl, lemma_lt_total, lemma_lt_trans, seq_lt};
use crate::package::{package_views, source_rank, Package, PackageView, Repository, SourceType};
use crate::text::{
    chars_eq, chars_of, contains, contains_chars, is_match_at, rsplit_once_ch, rsplit_once_char,
    starts_with, string_of, to_lowercase, trim, trim_chars, unicode_lower,
};

verus! {

/// At most `max` characters of `s`: `s` itself when it fits, else its first `max - 1`
/// characters and an ellipsis.
pub open spec fn truncate_spec(s: Seq<char>, max: nat) -> Seq<char> {
    if max == 0 {
        Seq::<char>::empty()
    } else if s.len() <= max {
        s
    } else {
        s.take(max - 1).push('\u{2026}')
    }
}

pub fn truncate_chars(v: &[char], max: usize) -> (r: Vec<char>)
    ensures
        r@ == truncate_spec(v@, max as nat),
{
    let mut r: Vec<char> = Vec::new();
    if max == 0 {
        return r;
    }
    let n = if v.len() <= max {
        v.len()
    } else {
        max - 1
    };
    let mut i: usize = 0;
    while i < n
        invariant
            0 <= i <= n <= v.len(),
            r@ == v@.take(i as int),
        decreases n - i,
    {
        r.push(v[i]);
        proof {
            assert(v@.take(i + 1) =~= v@.take(i as int).push(v@[i as int]));
        }
        i = i + 1;
    }
    if v.len() > max {
        r.push('\u{2026}');
    } else {
        proof {
            assert(v@.take(n as int) =~= v@);
        }
    }
    r
}

/// Shortens `s` to at most `max` characters, marking a cut with `…`.
pub fn truncate_str(s: &str, max: usize) -> (r: String)
    ensures
        r@ == truncate_spec(s@, max as nat),
{
    let v = chars_of(s);
    let t = truncate_chars(&v, max);
    string_of(&t)
}

// ---------------------------------------------------------------------------
// Relevance of a package for a search query.
// ---------------------------------------------------------------------------

/// 0 for the query itself, 1 for a prefix match, 2 for a match inside, 4 otherwise.
pub open spec fn text_rank_spec(text: Seq<char>, query: Seq<char>) -> u8 {
    if text == query {
        0
    } else if starts_with(text, query) {
        1
    } else if contains(text, query) {
        2
    } else {
        4
    }
}

pub fn text_rank(text: &[char], query: &[char]) -> (r: u8)
    ensures
        r == text_rank_spec(text@, query@),
{
    if chars_eq(text, query) {
        0
    } else if is_match_at(text, query, 0) {
        proof {
            assert(text@.subrange(0, query@.len() as int) =~= text@.take(query@.len() as int));
        }
        1
    } else if contains_chars(text, query) {
        proof {
            if starts_with(text@, query@) {
                assert(text@.subrange(0, query@.len() as int) =~= text@.take(query@.len() as int));
            }
        }
        2
    } else {
        proof {
            if starts_with(text@, query@) {
                assert(text@.subrange(0, query@.len() as int) =~= text@.take(query@.len() as int));
            }
        }
        4
    }
}

pub open spec fn min_u8(a: u8, b: u8) -> u8 {
    if a <= b {
        a
    } else {
        b
    }
}

/// What follows the last `.` (the whole name when there is none).
pub open spec fn last_segment(s: Seq<char>) -> Seq<char> {
    match rsplit_once_char(s, '.') {
        Some((_, last)) => last,
        None => s,
    }
}

/// The rank of a package for a query already trimmed and lowercased: exact name,
/// name prefix, name contains, description contains. For flatpak the last segment of
/// the app ID counts as a prefix match at best, and the display name counts as a
/// name.
pub open spec fn search_rank_spec(p: PackageView, query: Seq<char>) -> u8 {
    let name = unicode_lower(p.name);
    let r0 = text_rank_spec(name, query);
    let r1 = if p.source == SourceType::Flatpak {
        let t = text_rank_spec(last_segment(name), query);
        min_u8(r0, if t < 1 { 1 } else { t })
    } else {
        r0
    };
    let r2 = match p.display_name {
        Some(d) => min_u8(r1, text_rank_spec(unicode_lower(d), query)),
        None => r1,
    };
    if r2 > 3 && (match p.description {
        Some(d) => contains(unicode_lower(d), query),
        None => false,
    }) {
        3
    } else {
        r2
    }
}

pub fn search_rank(package: &Package, query: &str) -> (r: u8)
    ensures
        r == search_rank_spec(package@, query@),
{
    let q = chars_of(query);
    let name = to_lowercase(&chars_of(package.name.as_str()));
    let mut rank = text_rank(&name, &q);
    if package.source == SourceType::Flatpak {
        let short = match rsplit_once_ch(&name, '.') {
            Some((_, last)) => last,
            None => crate::text::copy_range(&name, 0, name.len()),
        };
        proof {
            if rsplit_once_char(name@, '.') is None {
                assert(short@ =~= name@);
            }
        }
        let t = text_rank(&short, &q);
        let t1 = if t < 1 {
            1
        } else {
            t
        };
        if t1 < rank {
            rank = t1;
        }
    }
    match &package.display_name {
        Some(d) => {
            let dl = to_lowercase(&chars_of(d.as_str()));
            let t = text_rank(&dl, &q);
            if t < rank {
                rank = t;
            }
        },
        None => {},
    }
    if rank > 3 {
        match &package.description {
            Some(d) => {
                let dl = to_lowercase(&chars_of(d.as_str()));
                if contains_chars(&dl, &q) {
                    rank = 3;
                }
            },
            None => {},
        }
    }
    rank
}

// ---------------------------------------------------------------------------
// The order of search results.
// ---------------------------------------------------------------------------

/// A package with the query's rank: sorted by rank, then source, then name.
pub open spec fn ranked_lt(a: (u8, PackageView), b: (u8, PackageView)) -> bool {
    a.0 < b.0 || (a.0 == b.0 && (source_rank(a.1.source) < source_rank(b.1.source) || (
    source_rank(a.1.source) == source_rank(b.1.source) && seq_lt(a.1.name, b.1.name))))
}

/// Where `x` goes: before the first entry that sorts after it.
pub open spec fn ranked_pos(s: Seq<(u8, PackageView)>, x: (u8, PackageView)) -> nat
    decreases s.len(),
{
    if s.len() == 0 {
        0
    } else if ranked_lt(x, s[0]) {
        0
    } else {
        1 + ranked_pos(s.drop_first(), x)
    }
}

/// Stable order by rank, source and name.
pub open spec fn ranked_order(s: Seq<(u8, PackageView)>) -> Seq<(u8, PackageView)>
    decreases s.len(),
{
    if s.len() == 0 {
        s
    } else {
        let r = ranked_order(s.drop_last());
        r.insert(ranked_pos(r, s.last()) as int, s.last())
    }
}

pub open spec fn ranked_sorted(s: Seq<(u8, PackageView)>) -> bool {
    forall|i: int, j: int| 0 <= i < j < s.len() ==> !ranked_lt(#[trigger] s[j], #[trigger] s[i])
}

proof fn lemma_ranked_lt(a: (u8, PackageView), b: (u8, PackageView), c: (u8, PackageView))
    ensures
        !ranked_lt(a, a),
        ranked_lt(a, b) ==> !ranked_lt(b, a),
        ranked_lt(a, b) && ranked_lt(b, c) ==> ranked_lt(a, c),
        !ranked_lt(a, b) && !ranked_lt(b, c) ==> !ranked_lt(a, c),
{
    lemma_lt_irrefl(a.1.name);
    lemma_lt_asym(a.1.name, b.1.name);
    lemma_lt_total(a.1.name, b.1.name);
    lemma_lt_total(b.1.name, c.1.name);
    lemma_lt_total(a.1.name, c.1.name);
    lemma_lt_asym(a.1.name, c.1.name);
    lemma_lt_asym(b.1.name, c.1.name);
    if seq_lt(a.1.name, b.1.name) && seq_lt(b.1.name, c.1.name) {
        lemma_lt_trans(a.1.name, b.1.name, c.1.name);
    }
    if seq_lt(b.1.name, a.1.name) && seq_lt(c.1.name, b.1.name) {
        lemma_lt_trans(c.1.name, b.1.name, a.1.name);
    }
}

proof fn lemma_ranked_pos(s: Seq<(u8, PackageView)>, x: (u8, PackageView))
    ensures
        ranked_pos(s, x) <= s.len(),
        forall|i: int| 0 <= i < ranked_pos(s, x) ==> !ranked_lt(x, #[trigger] s[i]),
        ranked_pos(s, x) < s.len() ==> ranked_lt(x, s[ranked_pos(s, x) as int]),
    decreases s.len(),
{
    if s.len() > 0 && !ranked_lt(x, s[0]) {
        lemma_ranked_pos(s.drop_first(), x);
        assert forall|i: int| 0 <= i < ranked_pos(s, x) implies !ranked_lt(x, #[trigger] s[i]) by {
            if i > 0 {
                assert(s[i] == s.drop_first()[i - 1]);
            }
        }
        if ranked_pos(s, x) < s.len() {
            assert(s[ranked_pos(s, x) as int] == s.drop_first()[ranked_pos(s.drop_first(), x) as int]);
        }
    }
}

/// The order by rank, source and name is sorted.
pub proof fn lemma_ranked_order_sorted(s: Seq<(u8, PackageView)>)
    ensures
        ranked_sorted(ranked_order(s)),
    decreases s.len(),
{
    if s.len() > 0 {
        lemma_ranked_order_sorted(s.drop_last());
        let r = ranked_order(s.drop_last());
        let x = s.last();
        lemma_ranked_pos(r, x);
        let p = ranked_pos(r, x) as int;
        let t = r.insert(p, x);
        assert forall|i: int, j: int| 0 <= i < j < t.len() implies !ranked_lt(
            #[trigger] t[j],
            #[trigger] t[i],
        ) by {
            if j < p {
                assert(t[i] == r[i] && t[j] == r[j]);
            } else if j == p {
                assert(t[i] == r[i] && t[j] == x);
            } else if i == p {
                assert(t[i] == x && t[j] == r[j - 1]);
                lemma_ranked_lt(x, r[p], r[j - 1]);
                lemma_ranked_lt(r[j - 1], x, r[p]);
                if j - 1 > p {
                    assert(!ranked_lt(r[j - 1], r[p]));
                }
            } else if i < p {
                assert(t[i] == r[i] && t[j] == r[j - 1]);
                lemma_ranked_lt(r[j - 1], x, r[i]);
                lemma_ranked_lt(x, r[p], r[j - 1]);
                lemma_ranked_lt(r[j - 1], r[p], x);
                if j - 1 > p {
                    assert(!ranked_lt(r[j - 1], r[p]));
                }
                assert(!ranked_lt(x, r[i]));
            } else {
                assert(t[i] == r[i - 1] && t[j] == r[j - 1]);
            }
        }
    }
}

/// The order by rank, source and name holds the packages it was given, each as often.
pub proof fn lemma_ranked_order_permutes(s: Seq<(u8, PackageView)>)
    ensures
        ranked_order(s).to_multiset() == s.to_multiset(),
    decreases s.len(),
{
    broadcast use vstd::seq_lib::group_to_multiset_ensures;

    if s.len() > 0 {
        lemma_ranked_order_permutes(s.drop_last());
        let r = ranked_order(s.drop_last());
        lemma_ranked_pos(r, s.last());
        assert(s.drop_last().push(s.last()) =~= s);
    }
}

/// Packages shown under the architecture filter of `config`: those without an arch,
/// and those whose arch is listed for their source.
pub open spec fn arch_shown(p: PackageView, config: Config) -> bool {
    match p.arch {
        Some(a) => arches_of(config.display.architectures, p.source).contains(a),
        None => true,
    }
}

/// The packages shown, each with its rank for `query`.
pub open spec fn shown_ranked(s: Seq<PackageView>, config: Config, query: Seq<char>) -> Seq<
    (u8, PackageView),
>
    decreases s.len(),
{
    if s.len() == 0 {
        Seq::<(u8, PackageView)>::empty()
    } else {
        let r = shown_ranked(s.drop_last(), config, query);
        if arch_shown(s.last(), config) {
            r.push((search_rank_spec(s.last(), query), s.last()))
        } else {
            r
        }
    }
}

pub open spec fn ranked_packages(s: Seq<(u8, PackageView)>) -> Seq<PackageView> {
    s.map_values(|x: (u8, PackageView)| x.1)
}

/// The search results to show, in order: the architecture filter of `config`, then
/// relevance to `query` (trimmed, lowercased), source and name; results that tie on
/// all three keep their order.
pub open spec fn filtered_sorted(s: Seq<PackageView>, config: Config, query: Seq<char>) -> Seq<
    PackageView,
> {
    ranked_packages(ranked_order(shown_ranked(s, config, unicode_lower(trim(query)))))
}

fn ranked_lt_exec(a: &(u8, Package), b: &(u8, Package)) -> (r: bool)
    ensures
        r == ranked_lt((a.0, a.1@), (b.0, b.1@)),
{
    if a.0 != b.0 {
        return a.0 < b.0;
    }
    let sa = a.1.source.rank();
    let sb = b.1.source.rank();
    if sa != sb {
        return sa < sb;
    }
    chars_lt(&chars_of(a.1.name.as_str()), &chars_of(b.1.name.as_str()))
}

pub open spec fn rank_views(s: Seq<(u8, Package)>) -> Seq<(u8, PackageView)> {
    s.map_values(|x: (u8, Package)| (x.0, x.1@))
}

/// Search results: the architecture filter, then relevance to `query`, source and
/// name. Relevance: exact name, name prefix, name contains, description contains. For
/// flatpak the display name counts as a name and the last app ID segment as a prefix
/// match.
pub fn filter_and_sort_packages(packages: &mut Vec<Package>, config: &Config, query: &str)
    ensures
        package_views(final(packages)@) == filtered_sorted(package_views(old(packages)@), *config, query@),
{
    let q = to_lowercase(&trim_chars(&chars_of(query)));
    let qs = string_of(&q);
    let ghost pv = package_views(packages@);
    let mut ranked: Vec<(u8, Package)> = Vec::new();
    let mut taken: Vec<Package> = Vec::new();
    std::mem::swap(&mut taken, packages);
    proof {
        assert(pv == package_views(taken@));
        assert(pv.take(0) =~= Seq::<PackageView>::empty());
        assert(rank_views(ranked@) =~= ranked_order(shown_ranked(pv.take(0), *config, qs@)));
    }
    let mut i: usize = 0;
    while i < taken.len()
        invariant
            0 <= i <= taken.len(),
            pv == package_views(taken@),
            qs@ == unicode_lower(trim(query@)),
            rank_views(ranked@) == ranked_order(shown_ranked(pv.take(i as int), *config, qs@)),
        decreases taken.len() - i,
    {
        proof {
            assert(pv.take(i + 1).drop_last() =~= pv.take(i as int));
            assert(pv.take(i + 1).last() == taken@[i as int]@);
        }
        let p = &taken[i];
        let shown = match &p.arch {
            Some(a) => config.display.architectures.arch_allowed(a.as_str(), p.source),
            None => true,
        };
        let ghost prev = shown_ranked(pv.take(i as int), *config, qs@);
        proof {
            assert(pv[i as int] == taken@[i as int]@);
            assert(shown == arch_shown(pv[i as int], *config));
        }
        if shown {
            let rank = search_rank(p, qs.as_str());
            let x = (rank, p.clone());
            let ghost vs = rank_views(ranked@);
            let mut pos: usize = 0;
            proof {
                assert(vs.skip(0) =~= vs);
            }
            while pos < ranked.len() && !ranked_lt_exec(&x, &ranked[pos])
                invariant
                    0 <= pos <= ranked@.len(),
                    vs == rank_views(ranked@),
                    ranked_pos(vs, (x.0, x.1@)) == pos + ranked_pos(vs.skip(pos as int), (x.0, x.1@)),
                decreases ranked.len() - pos,
            {
                proof {
                    assert(vs.skip(pos as int)[0] == vs[pos as int]);
                    assert(vs.skip(pos as int).drop_first() =~= vs.skip(pos + 1));
                }
                pos = pos + 1;
            }
            proof {
                if pos < ranked.len() {
                    assert(vs.skip(pos as int)[0] == vs[pos as int]);
                }
            }
            ranked.insert(pos, x);
            proof {
                assert(rank_views(ranked@) =~= vs.insert(pos as int, (x.0, x.1@)));
                let y = (x.0, x.1@);
                assert(y == (search_rank_spec(pv[i as int], qs@), pv[i as int]));
                assert(shown_ranked(pv.take(i + 1), *config, qs@) == prev.push(y));
                assert(prev.push(y).drop_last() =~= prev);
            }
        } else {
            proof {
                assert(shown_ranked(pv.take(i + 1), *config, qs@) == prev);
            }
        }
        i = i + 1;
    }
    proof {
        assert(pv.take(pv.len() as int) =~= pv);
    }
    let mut j: usize = 0;
    while j < ranked.len()
        invariant
            0 <= j <= ranked.len(),
            package_views(packages@) == ranked_packages(rank_views(ranked@)).take(j as int),
        decreases ranked.len() - j,
    {
        let c = ranked[j].1.clone();
        proof {
            crate::package::lemma_package_views_push(packages@, c);
            assert(ranked_packages(rank_views(ranked@)).take(j + 1) =~= ranked_packages(
                rank_views(ranked@),
            ).take(j as int).push(c@));
        }
        packages.push(c);
        j = j + 1;
    }
    proof {
        assert(ranked_packages(rank_views(ranked@)).take(ranked@.len() as int) =~= ranked_packages(
            rank_views(ranked@),
        ));
    }
}

// ---------------------------------------------------------------------------
// The order by source.
// ---------------------------------------------------------------------------

/// Listings ordered by source: what a listing's source and sort key are.
pub trait BySource: Sized {
    spec fn source_key(&self) -> SourceType;

    spec fn name_key(&self) -> Seq<char>;

    fn source_of(&self) -> (r: SourceType)
        ensures
            r == self.source_key(),
    ;

    fn key_of(&self) -> (r: &str)
        ensures
            r@ == self.name_key(),
    ;
}

impl BySource for Package {
    open spec fn source_key(&self) -> SourceType {
        self.source
    }

    open spec fn name_key(&self) -> Seq<char> {
        self.name@
    }

    fn source_of(&self) -> (r: SourceType) {
        self.source
    }

    fn key_of(&self) -> (r: &str) {
        self.name.as_str()
    }
}

impl BySource for Repository {
    open spec fn source_key(&self) -> SourceType {
        self.source
    }

    open spec fn name_key(&self) -> Seq<char> {
        self.id@
    }

    fn source_of(&self) -> (r: SourceType) {
        self.source
    }

    fn key_of(&self) -> (r: &str) {
        self.id.as_str()
    }
}

/// Sorted by source, then by key.
pub open spec fn source_lt<T: BySource>(a: T, b: T) -> bool {
    source_rank(a.source_key()) < source_rank(b.source_key()) || (source_rank(a.source_key())
        == source_rank(b.source_key()) && seq_lt(a.name_key(), b.name_key()))
}

pub open spec fn source_pos<T: BySource>(s: Seq<T>, x: T) -> nat
    decreases s.len(),
{
    if s.len() == 0 {
        0
    } else if source_lt(x, s[0]) {
        0
    } else {
        1 + source_pos(s.drop_first(), x)
    }
}

/// Stable order by source and key.
pub open spec fn source_order<T: BySource>(s: Seq<T>) -> Seq<T>
    decreases s.len(),
{
    if s.len() == 0 {
        s
    } else {
        let r = source_order(s.drop_last());
        r.insert(source_pos(r, s.last()) as int, s.last())
    }
}

pub open spec fn source_sorted<T: BySource>(s: Seq<T>) -> bool {
    forall|i: int, j: int| 0 <= i < j < s.len() ==> !source_lt(#[trigger] s[j], #[trigger] s[i])
}

proof fn lemma_source_lt<T: BySource>(a: T, b: T, c: T)
    ensures
        !source_lt(a, a),
        source_lt(a, b) ==> !source_lt(b, a),
        !source_lt(a, b) && !source_lt(b, c) ==> !source_lt(a, c),
{
    lemma_lt_irrefl(a.name_key());
    lemma_lt_asym(a.name_key(), b.name_key());
    lemma_lt_total(a.name_key(), b.name_key());
    lemma_lt_total(b.name_key(), c.name_key());
    lemma_lt_total(a.name_key(), c.name_key());
    lemma_lt_asym(a.name_key(), c.name_key());
    lemma_lt_asym(b.name_key(), c.name_key());
    if seq_lt(b.name_key(), a.name_key()) && seq_lt(c.name_key(), b.name_key()) {
        lemma_lt_trans(c.name_key(), b.name_key(), a.name_key());
    }
}

proof fn lemma_source_pos<T: BySource>(s: Seq<T>, x: T)
    ensures
        source_pos(s, x) <= s.len(),
        forall|i: int| 0 <= i < source_pos(s, x) ==> !source_lt(x, #[trigger] s[i]),
        source_pos(s, x) < s.len() ==> source_lt(x, s[source_pos(s, x) as int]),
    decreases s.len(),
{
    if s.len() > 0 && !source_lt(x, s[0]) {
        lemma_source_pos(s.drop_first(), x);
        assert forall|i: int| 0 <= i < source_pos(s, x) implies !source_lt(x, #[trigger] s[i]) by {
            if i > 0 {
                assert(s[i] == s.drop_first()[i - 1]);
            }
        }
        if source_pos(s, x) < s.len() {
            assert(s[source_pos(s, x) as int] == s.drop_first()[source_pos(s.drop_first(), x) as int]);
        }
    }
}

/// The order by source is sorted.
pub proof fn lemma_source_order_sorted<T: BySource>(s: Seq<T>)
    ensures
        source_sorted(source_order(s)),
    decreases s.len(),
{
    if s.len() > 0 {
        lemma_source_order_sorted(s.drop_last());
        let r = source_order(s.drop_last());
        let x = s.last();
        lemma_source_pos(r, x);
        let p = source_pos(r, x) as int;
        let t = r.insert(p, x);
        assert forall|i: int, j: int| 0 <= i < j < t.len() implies !source_lt(
            #[trigger] t[j],
            #[trigger] t[i],
        ) by {
            if j < p {
                assert(t[i] == r[i] && t[j] == r[j]);
            } else if j == p {
                assert(t[i] == r[i] && t[j] == x);
            } else if i == p {
                assert(t[i] == x && t[j] == r[j - 1]);
                lemma_source_lt(x, r[p], r[j - 1]);
                lemma_source_lt(r[j - 1], x, r[p]);
                lemma_source_lt(r[j - 1], r[p], x);
                if j - 1 > p {
                    assert(!source_lt(r[j - 1], r[p]));
                }
            } else if i < p {
                assert(t[i] == r[i] && t[j] == r[j - 1]);
                lemma_source_lt(r[j - 1], x, r[i]);
                lemma_source_lt(r[j - 1], r[p], x);
                lemma_source_lt(x, r[p], r[j - 1]);
                if j - 1 > p {
                    assert(!source_lt(r[j - 1], r[p]));
                }
                assert(!source_lt(x, r[i]));
            } else {
                assert(t[i] == r[i - 1] && t[j] == r[j - 1]);
            }
        }
    }
}

/// The order by source holds the listings it was given, each as often.
pub proof fn lemma_source_order_permutes<T: BySource>(s: Seq<T>)
    ensures
        source_order(s).to_multiset() == s.to_multiset(),
    decreases s.len(),
{
    broadcast use vstd::seq_lib::group_to_multiset_ensures;

    if s.len() > 0 {
        lemma_source_order_permutes(s.drop_last());
        let r = source_order(s.drop_last());
        lemma_source_pos(r, s.last());
        assert(s.drop_last().push(s.last()) =~= s);
    }
}

fn source_lt_exec<T: BySource>(a: &T, b: &T) -> (r: bool)
    ensures
        r == source_lt(*a, *b),
{
    let sa = a.source_of().rank();
    let sb = b.source_of().rank();
    if sa != sb {
        return sa < sb;
    }
    chars_lt(&chars_of(a.key_of()), &chars_of(b.key_of()))
}

/// Sorts listings by source, then by key; listings that tie keep their order.
pub fn sort_by_source<T: BySource>(items: &mut Vec<T>)
    ensures
        final(items)@ == source_order(old(items)@),
{
    let mut rest: Vec<T> = Vec::new();
    std::mem::swap(&mut rest, items);
    let ghost all = rest@;
    let mut n: usize = 0;
    let total = rest.len();
    proof {
        assert(all.len() == total);
        assert(all.take(0) =~= Seq::<T>::empty());
        assert(rest@ =~= all.skip(0));
    }
    while rest.len() > 0
        invariant
            n + rest@.len() == all.len(),
            all.len() <= usize::MAX,
            rest@ == all.skip(n as int),
            items@ == source_order(all.take(n as int)),
        decreases rest.len(),
    {
        let x = rest.remove(0);
        proof {
            assert(x == all[n as int]);
            assert(rest@ =~= all.skip(n + 1));
            assert(all.take(n + 1).drop_last() =~= all.take(n as int));
            assert(all.take(n + 1).last() == x);
        }
        let ghost vs = items@;
        let mut pos: usize = 0;
        proof {
            assert(vs.skip(0) =~= vs);
        }
        while pos < items.len() && !source_lt_exec(&x, &items[pos])
            invariant
                0 <= pos <= items@.len(),
                vs == items@,
                source_pos(vs, x) == pos + source_pos(vs.skip(pos as int), x),
            decreases items.len() - pos,
        {
            proof {
                assert(vs.skip(pos as int)[0] == vs[pos as int]);
                assert(vs.skip(pos as int).drop_first() =~= vs.skip(pos + 1));
            }
            pos = pos + 1;
        }
        proof {
            if pos < items.len() {
                assert(vs.skip(pos as int)[0] == vs[pos as int]);
            }
        }
        items.insert(pos, x);
        n = n + 1;
    }
    proof {
        assert(all.take(n as int) =~= all);
    }
}

} // verus!
