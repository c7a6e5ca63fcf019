//! Cleanup planning: which kernels are old, which packages a removal takes, what a
//! removal preview adds, and how errors of a preview are reported.
use vstd::prelude::*;

use crate::error::PikeError;
use crate::package::{display_name_spec, item_views, lemma_item_views_push, lemma_string_views_push, string_views, CleanupItem, CleanupItemView, CleanupKind, SourceType};
use crate::order::{chars_lt, lemma_lt_total, lemma_lt_trans, seq_lt};
use crate::text::{chars_eq, chars_of, contains, contains_str, ends_with, join, join_chars, lines, lines_of, push_all, push_str, rsplit_once_ch, rsplit_once_char, string_of, trim, trim_chars, views};
use crate::util::{truncate_chars, truncate_spec};
use crate::version::{lemma_str_order, lemma_version_order_antisym, lemma_version_order_trans, str_order, version_order, version_sign};

verus! {

broadcast use vstd::seq_lib::group_to_multiset_ensures;

/// A kernel version with its installed size.
pub type KernelEntry = (String, Option<u64>);

pub open spec fn kernel_views(s: Seq<KernelEntry>) -> Seq<(Seq<char>, Option<u64>)> {
    s.map_values(|e: KernelEntry| (e.0@, e.1))
}

/// Where a kernel of version `v` goes in a list ordered newest first: before the first
/// entry that is older, so that entries as new as it stay before it.
pub open spec fn older_pos(s: Seq<(Seq<char>, Option<u64>)>, v: Seq<char>) -> nat
    decreases s.len(),
{
    if s.len() == 0 {
        0
    } else if version_order(s[0].0, v) < 0 {
        0
    } else {
        1 + older_pos(s.drop_first(), v)
    }
}

/// The kernels ordered newest first; kernels as new as each other keep their order.
pub open spec fn newest_first(s: Seq<(Seq<char>, Option<u64>)>) -> Seq<(Seq<char>, Option<u64>)>
    decreases s.len(),
{
    if s.len() == 0 {
        s
    } else {
        let r = newest_first(s.drop_last());
        r.insert(older_pos(r, s.last().0) as int, s.last())
    }
}

pub open spec fn sorted_newest_first(s: Seq<(Seq<char>, Option<u64>)>) -> bool {
    forall|i: int, j: int| 0 <= i < j < s.len() ==> version_order(#[trigger] s[i].0, #[trigger] s[j].0) >= 0
}

proof fn lemma_older_pos(s: Seq<(Seq<char>, Option<u64>)>, v: Seq<char>)
    ensures
        older_pos(s, v) <= s.len(),
        forall|i: int| 0 <= i < older_pos(s, v) ==> version_order(#[trigger] s[i].0, v) >= 0,
        older_pos(s, v) < s.len() ==> version_order(s[older_pos(s, v) as int].0, v) < 0,
    decreases s.len(),
{
    if s.len() > 0 && version_order(s[0].0, v) >= 0 {
        lemma_older_pos(s.drop_first(), v);
        assert forall|i: int| 0 <= i < older_pos(s, v) implies version_order(
            #[trigger] s[i].0,
            v,
        ) >= 0 by {
            if i > 0 {
                assert(s[i] == s.drop_first()[i - 1]);
            }
        }
        if older_pos(s, v) < s.len() {
            assert(s[older_pos(s, v) as int] == s.drop_first()[older_pos(s.drop_first(), v) as int]);
        }
    }
}

proof fn lemma_insert_newest(s: Seq<(Seq<char>, Option<u64>)>, x: (Seq<char>, Option<u64>))
    requires
        sorted_newest_first(s),
    ensures
        sorted_newest_first(s.insert(older_pos(s, x.0) as int, x)),
{
    lemma_older_pos(s, x.0);
    let p = older_pos(s, x.0) as int;
    let r = s.insert(p, x);
    assert forall|j: int| p <= j < s.len() implies version_order(x.0, #[trigger] s[j].0) >= 0 by {
        lemma_version_order_antisym(s[p].0, x.0);
        lemma_version_order_antisym(s[j].0, s[p].0);
        lemma_version_order_antisym(s[j].0, x.0);
        if j > p {
            assert(version_order(s[p].0, s[j].0) >= 0);
            lemma_version_order_trans(s[j].0, s[p].0, x.0);
        }
    }
    assert forall|i: int, j: int| 0 <= i < j < r.len() implies version_order(
        #[trigger] r[i].0,
        #[trigger] r[j].0,
    ) >= 0 by {
        if j < p {
            assert(r[i] == s[i] && r[j] == s[j]);
        } else if j == p {
            assert(r[i] == s[i] && r[j] == x);
        } else if i == p {
            assert(r[i] == x && r[j] == s[j - 1]);
        } else if i < p {
            assert(r[i] == s[i] && r[j] == s[j - 1]);
            assert(version_order(s[i].0, x.0) >= 0);
            assert(version_order(x.0, s[j - 1].0) >= 0);
            lemma_version_order_antisym(s[i].0, x.0);
            lemma_version_order_antisym(x.0, s[j - 1].0);
            lemma_version_order_antisym(s[i].0, s[j - 1].0);
            lemma_version_order_trans(s[j - 1].0, x.0, s[i].0);
        } else {
            assert(r[i] == s[i - 1] && r[j] == s[j - 1]);
        }
    }
}

/// The newest-first order is sorted: no kernel comes before a newer one.
pub proof fn lemma_newest_first_sorted(s: Seq<(Seq<char>, Option<u64>)>)
    ensures
        sorted_newest_first(newest_first(s)),
    decreases s.len(),
{
    if s.len() > 0 {
        lemma_newest_first_sorted(s.drop_last());
        lemma_insert_newest(newest_first(s.drop_last()), s.last());
    }
}

/// The newest-first order holds the kernels it was given, each as often.
pub proof fn lemma_newest_first_permutes(s: Seq<(Seq<char>, Option<u64>)>)
    ensures
        newest_first(s).to_multiset() == s.to_multiset(),
    decreases s.len(),
{
    if s.len() > 0 {
        lemma_newest_first_permutes(s.drop_last());
        let r = newest_first(s.drop_last());
        lemma_older_pos(r, s.last().0);
        assert(s.drop_last().push(s.last()) =~= s);
    }
}

/// How the package of an old kernel is named.
#[derive(Clone, Copy)]
pub enum KernelNaming {
    /// A prefix followed by the kernel version (`linux-image-6.8.0-45-generic`).
    VersionAfter(&'static str),
    /// One name for every kernel (`kernel`).
    Fixed(&'static str),
}

pub open spec fn kernel_name(n: KernelNaming, v: Seq<char>) -> Seq<char> {
    match n {
        KernelNaming::VersionAfter(p) => p@ + v,
        KernelNaming::Fixed(f) => f@,
    }
}

/// The cleanup items of the kernels of `s` other than the running one.
pub open spec fn kernel_entries(
    s: Seq<(Seq<char>, Option<u64>)>,
    running: Seq<char>,
    source: SourceType,
    naming: KernelNaming,
) -> Seq<CleanupItemView>
    decreases s.len(),
{
    if s.len() == 0 {
        Seq::<CleanupItemView>::empty()
    } else {
        let r = kernel_entries(s.drop_last(), running, source, naming);
        let (v, size) = s.last();
        if v == running {
            r
        } else {
            r.push(
                CleanupItemView {
                    source,
                    kind: CleanupKind::OldKernel,
                    name: kernel_name(naming, v),
                    version: v,
                    size,
                    arch: None,
                },
            )
        }
    }
}

/// Old kernels: all but the `keep` newest (at least one is kept) and the running one;
/// none when the running kernel is unknown.
pub open spec fn old_kernels(
    versions: Seq<(Seq<char>, Option<u64>)>,
    running: Option<Seq<char>>,
    keep: nat,
    source: SourceType,
    naming: KernelNaming,
) -> Seq<CleanupItemView> {
    match running {
        None => Seq::<CleanupItemView>::empty(),
        Some(r) => {
            let k = if keep < 1 {
                1
            } else {
                keep
            };
            let sorted = newest_first(versions);
            if k >= sorted.len() {
                Seq::<CleanupItemView>::empty()
            } else {
                kernel_entries(sorted.skip(k as int), r, source, naming)
            }
        },
    }
}

fn clone_entry(e: &KernelEntry) -> (r: KernelEntry)
    ensures
        r.0@ == e.0@,
        r.1 == e.1,
{
    (e.0.clone(), e.1)
}

/// Sorts kernel entries newest first, keeping the order of kernels as new as each other.
pub fn sort_newest_first(versions: &Vec<KernelEntry>) -> (r: Vec<KernelEntry>)
    ensures
        kernel_views(r@) == newest_first(kernel_views(versions@)),
{
    let mut r: Vec<KernelEntry> = Vec::new();
    let mut i: usize = 0;
    proof {
        assert(kernel_views(versions@).take(0) =~= Seq::<(Seq<char>, Option<u64>)>::empty());
        assert(kernel_views(r@) =~= Seq::<(Seq<char>, Option<u64>)>::empty());
    }
    while i < versions.len()
        invariant
            0 <= i <= versions.len(),
            kernel_views(r@) == newest_first(kernel_views(versions@).take(i as int)),
        decreases versions.len() - i,
    {
        let ghost vs = kernel_views(r@);
        let x = clone_entry(&versions[i]);
        proof {
            assert(kernel_views(versions@).take(i + 1).drop_last() =~= kernel_views(versions@).take(
                i as int,
            ));
            assert(kernel_views(versions@).take(i + 1).last() == (x.0@, x.1));
        }
        let mut p: usize = 0;
        proof {
            assert(vs.skip(0) =~= vs);
        }
        while p < r.len() && version_sign(r[p].0.as_str(), x.0.as_str()) >= 0
            invariant
                0 <= p <= r@.len(),
                vs == kernel_views(r@),
                older_pos(vs, x.0@) == p + older_pos(vs.skip(p as int), x.0@),
            decreases r.len() - p,
        {
            proof {
                assert(vs.skip(p as int)[0] == vs[p as int]);
                assert(vs.skip(p as int).drop_first() =~= vs.skip(p + 1));
            }
            p = p + 1;
        }
        proof {
            if p < r.len() {
                assert(vs.skip(p as int)[0] == vs[p as int]);
            } else {
                assert(vs.skip(p as int).len() == 0);
            }
        }
        r.insert(p, x);
        proof {
            assert(kernel_views(r@) =~= vs.insert(p as int, (x.0@, x.1)));
        }
        i = i + 1;
    }
    proof {
        assert(kernel_views(versions@).take(versions@.len() as int) =~= kernel_views(versions@));
    }
    r
}

fn kernel_package_name(naming: KernelNaming, v: &str) -> (r: String)
    ensures
        r@ == kernel_name(naming, v@),
{
    match naming {
        KernelNaming::VersionAfter(p) => {
            let mut c = chars_of(p);
            push_str(&mut c, v);
            string_of(&c)
        },
        KernelNaming::Fixed(f) => {
            let c = chars_of(f);
            string_of(&c)
        },
    }
}

/// Keeps the `keep` newest kernels and the running one; offers nothing when the running
/// kernel is unknown.
pub fn old_kernel_items(
    versions: Vec<KernelEntry>,
    running: Option<&str>,
    keep: usize,
    source: SourceType,
    name: KernelNaming,
) -> (r: Vec<CleanupItem>)
    ensures
        item_views(r@) == old_kernels(
            kernel_views(versions@),
            match running {
                Some(s) => Some(s@),
                None => None,
            },
            keep as nat,
            source,
            name,
        ),
{
    let run = match running {
        None => {
            return Vec::new();
        },
        Some(s) => s,
    };
    let sorted = sort_newest_first(&versions);
    let k: usize = if keep < 1 {
        1
    } else {
        keep
    };
    let mut r: Vec<CleanupItem> = Vec::new();
    if k >= sorted.len() {
        return r;
    }
    let ghost rest = kernel_views(sorted@).skip(k as int);
    let runc = chars_of(run);
    let mut i: usize = k;
    proof {
        assert(rest.take(0) =~= Seq::<(Seq<char>, Option<u64>)>::empty());
        assert(item_views(r@) =~= Seq::<CleanupItemView>::empty());
    }
    while i < sorted.len()
        invariant
            k <= i <= sorted.len(),
            rest == kernel_views(sorted@).skip(k as int),
            runc@ == run@,
            item_views(r@) == kernel_entries(rest.take(i - k), run@, source, name),
        decreases sorted.len() - i,
    {
        proof {
            assert(rest.take(i - k + 1).drop_last() =~= rest.take(i - k));
            assert(rest.take(i - k + 1).last() == (sorted@[i as int].0@, sorted@[i as int].1));
        }
        let vc = chars_of(sorted[i].0.as_str());
        if !crate::text::chars_eq(&vc, &runc) {
            let item = CleanupItem {
                source,
                kind: CleanupKind::OldKernel,
                name: kernel_package_name(name, sorted[i].0.as_str()),
                version: sorted[i].0.clone(),
                size: sorted[i].1,
                arch: None,
            };
            proof {
                lemma_item_views_push(r@, item);
            }
            r.push(item);
        }
        i = i + 1;
    }
    proof {
        assert(rest.take(sorted@.len() - k) =~= rest);
    }
    r
}

// ---------------------------------------------------------------------------
// Packages to remove.
// ---------------------------------------------------------------------------

/// A kernel package is removed only when the running release is known and the
/// package does not belong to it.
pub open spec fn kept_kernel(p: Seq<char>, running: Option<Seq<char>>) -> bool {
    match running {
        Some(r) => !ends_with(p, "-"@ + r),
        None => false,
    }
}

pub open spec fn strictly_sorted(s: Seq<Seq<char>>) -> bool {
    forall|i: int, j: int| 0 <= i < j < s.len() ==> seq_lt(#[trigger] s[i], #[trigger] s[j])
}

proof fn lemma_insert_strictly_sorted(s: Seq<Seq<char>>, x: Seq<char>, p: int)
    requires
        0 <= p <= s.len(),
        strictly_sorted(s),
        forall|i: int| 0 <= i < p ==> seq_lt(#[trigger] s[i], x),
        p < s.len() ==> seq_lt(x, s[p]),
    ensures
        strictly_sorted(s.insert(p, x)),
{
    let r = s.insert(p, x);
    assert forall|i: int, j: int| 0 <= i < j < r.len() implies seq_lt(
        #[trigger] r[i],
        #[trigger] r[j],
    ) by {
        if j < p {
            assert(r[i] == s[i] && r[j] == s[j]);
        } else if j == p {
            assert(r[i] == s[i] && r[j] == x);
        } else if i == p {
            assert(r[i] == x && r[j] == s[j - 1]);
            if j - 1 > p {
                lemma_lt_trans(x, s[p], s[j - 1]);
            }
        } else if i < p {
            assert(r[i] == s[i] && r[j] == s[j - 1]);
            if j - 1 > p {
                lemma_lt_trans(x, s[p], s[j - 1]);
            }
            lemma_lt_trans(s[i], x, s[j - 1]);
        } else {
            assert(r[i] == s[i - 1] && r[j] == s[j - 1]);
        }
    }
}

/// The kernel packages of `s` that a removal takes.
pub open spec fn kept_kernels(s: Seq<Seq<char>>, running: Option<Seq<char>>) -> Seq<Seq<char>>
    decreases s.len(),
{
    if s.len() == 0 {
        s
    } else {
        let r = kept_kernels(s.drop_last(), running);
        if kept_kernel(s.last(), running) {
            r.push(s.last())
        } else {
            r
        }
    }
}

/// Adds `x` to the strictly sorted `v` unless it is there already.
fn insert_sorted_unique(v: &mut Vec<String>, x: String)
    requires
        strictly_sorted(string_views(old(v)@)),
    ensures
        strictly_sorted(string_views(final(v)@)),
        string_views(final(v)@).to_set() == string_views(old(v)@).to_set().insert(x@),
{
    let ghost s = string_views(v@);
    let xc = chars_of(x.as_str());
    let mut p: usize = 0;
    while p < v.len() && chars_lt(&chars_of(v[p].as_str()), &xc)
        invariant
            0 <= p <= v@.len(),
            s == string_views(v@),
            xc@ == x@,
            forall|i: int| 0 <= i < p ==> seq_lt(#[trigger] s[i], x@),
        decreases v.len() - p,
    {
        proof {
            assert(s[p as int] == v@[p as int]@);
        }
        p = p + 1;
    }
    if p < v.len() {
        proof {
            assert(s[p as int] == v@[p as int]@);
        }
        if chars_eq(&chars_of(v[p].as_str()), &xc) {
            proof {
                assert(s.contains(x@));
                assert(s.to_set() =~= s.to_set().insert(x@));
            }
            return ;
        }
        proof {
            lemma_lt_total(s[p as int], x@);
        }
    }
    proof {
        lemma_insert_strictly_sorted(s, x@, p as int);
    }
    v.insert(p, x);
    proof {
        let t = string_views(v@);
        assert(t =~= s.insert(p as int, x@));
        assert forall|y: Seq<char>| t.contains(y) <==> (s.contains(y) || y == x@) by {
            if s.contains(y) {
                let k = choose|k: int| 0 <= k < s.len() && s[k] == y;
                if k < p {
                    assert(t[k] == y);
                } else {
                    assert(t[k + 1] == y);
                }
            }
            if y == x@ {
                assert(t[p as int] == y);
            }
            if t.contains(y) {
                let k = choose|k: int| 0 <= k < t.len() && t[k] == y;
                if k < p {
                    assert(s[k] == y);
                } else if k > p {
                    assert(s[k - 1] == y);
                }
            }
        }
        assert(t.to_set() =~= s.to_set().insert(x@));
    }
}

/// The packages to remove: every requested package, and every kernel package that is
/// kept by `kept_kernel`; sorted, each once.
pub fn removal_list(packages: Vec<String>, kernel_pkgs: Vec<String>, running: Option<&str>) -> (r:
    Vec<String>)
    ensures
        strictly_sorted(string_views(r@)),
        string_views(r@).to_set() == string_views(packages@).to_set().union(
            kept_kernels(
                string_views(kernel_pkgs@),
                match running {
                    Some(s) => Some(s@),
                    None => None,
                },
            ).to_set(),
        ),
{
    let ghost run = match running {
        Some(s) => Some(s@),
        None => None,
    };
    let ghost pv = string_views(packages@);
    let ghost kv = string_views(kernel_pkgs@);
    let mut r: Vec<String> = Vec::new();
    let mut i: usize = 0;
    proof {
        assert(string_views(r@).to_set() =~= pv.take(0).to_set());
    }
    while i < packages.len()
        invariant
            0 <= i <= packages.len(),
            pv == string_views(packages@),
            strictly_sorted(string_views(r@)),
            string_views(r@).to_set() == pv.take(i as int).to_set(),
        decreases packages.len() - i,
    {
        let x = packages[i].clone();
        proof {
            assert(x@ == pv[i as int]);
            assert(pv.take(i + 1) =~= pv.take(i as int).push(pv[i as int]));
            pv.take(i as int).lemma_push_to_set_commute(pv[i as int]);
        }
        insert_sorted_unique(&mut r, x);
        i = i + 1;
    }
    proof {
        assert(pv.take(pv.len() as int) =~= pv);
        assert(pv.to_set().union(kept_kernels(kv.take(0), run).to_set()) =~= pv.to_set());
    }
    let suffix: Option<Vec<char>> = match running {
        Some(s) => {
            let mut d = chars_of("-");
            push_str(&mut d, s);
            Some(d)
        },
        None => None,
    };
    let mut j: usize = 0;
    while j < kernel_pkgs.len()
        invariant
            0 <= j <= kernel_pkgs.len(),
            kv == string_views(kernel_pkgs@),
            strictly_sorted(string_views(r@)),
            match suffix {
                Some(d) => run matches Some(rr) && d@ == "-"@ + rr,
                None => run is None,
            },
            string_views(r@).to_set() == pv.to_set().union(kept_kernels(kv.take(j as int), run).to_set()),
        decreases kernel_pkgs.len() - j,
    {
        let p = &kernel_pkgs[j];
        let keep = match &suffix {
            Some(d) => {
                let pc = chars_of(p.as_str());
                !crate::text::has_suffix_chars(&pc, d)
            },
            None => false,
        };
        proof {
            assert(kv.take(j + 1).drop_last() =~= kv.take(j as int));
            assert(kv.take(j + 1).last() == p@);
            assert(keep == kept_kernel(p@, run));
            let before = kept_kernels(kv.take(j as int), run);
            if keep {
                before.lemma_push_to_set_commute(p@);
                assert(pv.to_set().union(before.to_set()).insert(p@) =~= pv.to_set().union(
                    before.push(p@).to_set(),
                ));
            }
        }
        if keep {
            let x = p.clone();
            proof {
                assert(x@ == p@);
            }
            insert_sorted_unique(&mut r, x);
        }
        j = j + 1;
    }
    proof {
        assert(kv.take(kv.len() as int) =~= kv);
    }
    r
}

// ---------------------------------------------------------------------------
// What a removal preview adds.
// ---------------------------------------------------------------------------

/// The first requested package that `removed` does not list.
pub open spec fn first_missing(requested: Seq<Seq<char>>, removed: Seq<Seq<char>>) -> Option<
    Seq<char>,
>
    decreases requested.len(),
{
    if requested.len() == 0 {
        None
    } else if !removed.contains(requested[0]) {
        Some(requested[0])
    } else {
        first_missing(requested.drop_first(), removed)
    }
}

/// The entries of `removed` that were not requested, in order.
pub open spec fn not_requested(removed: Seq<Seq<char>>, requested: Seq<Seq<char>>) -> Seq<Seq<char>>
    decreases removed.len(),
{
    if removed.len() == 0 {
        removed
    } else {
        let r = not_requested(removed.drop_last(), requested);
        if requested.contains(removed.last()) {
            r
        } else {
            r.push(removed.last())
        }
    }
}

pub fn string_list_has(v: &[String], x: &String) -> (r: bool)
    ensures
        r == string_views(v@).contains(x@),
{
    let xc = chars_of(x.as_str());
    let mut i: usize = 0;
    while i < v.len()
        invariant
            0 <= i <= v.len(),
            xc@ == x@,
            forall|k: int| 0 <= k < i ==> v@[k]@ != x@,
        decreases v.len() - i,
    {
        if chars_eq(&chars_of(v[i].as_str()), &xc) {
            proof {
                assert(string_views(v@)[i as int] == x@);
            }
            return true;
        }
        i = i + 1;
    }
    proof {
        if string_views(v@).contains(x@) {
            let k = choose|k: int| 0 <= k < v@.len() && string_views(v@)[k] == x@;
            assert(v@[k]@ == x@);
        }
    }
    false
}

/// The packages a removal preview lists beyond those requested; a requested package
/// missing from the preview means the simulation failed or found nothing.
pub fn extra_removals(removed: Vec<String>, requested: &[String], source: SourceType) -> (r: Result<
    Vec<String>,
    PikeError,
>)
    ensures
        match first_missing(string_views(requested@), string_views(removed@)) {
            Some(m) => r matches Err(PikeError::Parse { source_name, detail }) && source_name@
                == display_name_spec(source) && detail@ == "removal preview does not list requested package "@
                + m,
            None => r matches Ok(v) && string_views(v@) == not_requested(
                string_views(removed@),
                string_views(requested@),
            ),
        },
{
    let ghost rq = string_views(requested@);
    let ghost rm = string_views(removed@);
    let mut i: usize = 0;
    proof {
        assert(rq.skip(0) =~= rq);
    }
    while i < requested.len()
        invariant
            0 <= i <= requested.len(),
            rq == string_views(requested@),
            rm == string_views(removed@),
            first_missing(rq, rm) == first_missing(rq.skip(i as int), rm),
        decreases requested.len() - i,
    {
        proof {
            assert(rq.skip(i as int)[0] == requested@[i as int]@);
            assert(rq.skip(i as int).drop_first() =~= rq.skip(i + 1));
        }
        if !string_list_has(&removed, &requested[i]) {
            let mut d = chars_of("removal preview does not list requested package ");
            push_str(&mut d, requested[i].as_str());
            let n = chars_of(source.display_name());
            return Err(PikeError::Parse { source_name: string_of(&n), detail: string_of(&d) });
        }
        i = i + 1;
    }
    let mut out: Vec<String> = Vec::new();
    let mut j: usize = 0;
    proof {
        assert(rm.take(0) =~= Seq::<Seq<char>>::empty());
        assert(string_views(out@) =~= Seq::<Seq<char>>::empty());
    }
    while j < removed.len()
        invariant
            0 <= j <= removed.len(),
            rq == string_views(requested@),
            rm == string_views(removed@),
            string_views(out@) == not_requested(rm.take(j as int), rq),
        decreases removed.len() - j,
    {
        proof {
            assert(rm.take(j + 1).drop_last() =~= rm.take(j as int));
            assert(rm.take(j + 1).last() == removed@[j as int]@);
        }
        if !string_list_has(requested, &removed[j]) {
            let x = removed[j].clone();
            proof {
                lemma_string_views_push(out@, x);
            }
            out.push(x);
        }
        j = j + 1;
    }
    proof {
        assert(rm.take(rm.len() as int) =~= rm);
    }
    Ok(out)
}

/// The non-blank lines of `ls`, trimmed.
pub open spec fn nonblank_trimmed(ls: Seq<Seq<char>>) -> Seq<Seq<char>>
    decreases ls.len(),
{
    if ls.len() == 0 {
        ls
    } else {
        let r = nonblank_trimmed(ls.drop_last());
        let t = trim(ls.last());
        if t.len() > 0 {
            r.push(t)
        } else {
            r
        }
    }
}

/// The detail of a parse error with what the command wrote to standard error: its
/// non-blank lines, trimmed and joined by `; `, cut to 300 characters.
pub open spec fn with_stderr_detail(detail: Seq<char>, stderr: Seq<char>) -> Seq<char> {
    detail + ": "@ + truncate_spec(join(nonblank_trimmed(lines(stderr)), "; "@), 300)
}

/// Adds what the command wrote to standard error to a parse error; other errors, and
/// any error when standard error is blank, are returned as they are.
pub fn with_stderr(err: PikeError, stderr: &str) -> (r: PikeError)
    ensures
        match err {
            PikeError::Parse { source_name, detail } => if trim(stderr@).len() > 0 {
                r matches PikeError::Parse { source_name: s2, detail: d2 } && s2 == source_name
                    && d2@ == with_stderr_detail(detail@, stderr@)
            } else {
                r == err
            },
            _ => r == err,
        },
{
    match err {
        PikeError::Parse { source_name, detail } => {
            let sc = chars_of(stderr);
            let t = trim_chars(&sc);
            if t.len() == 0 {
                return PikeError::Parse { source_name, detail };
            }
            let ls = lines_of(&sc);
            let mut parts: Vec<Vec<char>> = Vec::new();
            let mut i: usize = 0;
            proof {
                assert(views(ls@).take(0) =~= Seq::<Seq<char>>::empty());
                assert(views(parts@) =~= Seq::<Seq<char>>::empty());
            }
            while i < ls.len()
                invariant
                    0 <= i <= ls.len(),
                    views(ls@) == lines(stderr@),
                    views(parts@) == nonblank_trimmed(views(ls@).take(i as int)),
                decreases ls.len() - i,
            {
                proof {
                    assert(views(ls@).take(i + 1).drop_last() =~= views(ls@).take(i as int));
                    assert(views(ls@).take(i + 1).last() == ls@[i as int]@);
                }
                let l = trim_chars(&ls[i]);
                if l.len() > 0 {
                    proof {
                        crate::text::lemma_views_push(parts@, l);
                    }
                    parts.push(l);
                }
                i = i + 1;
            }
            proof {
                assert(views(ls@).take(ls@.len() as int) =~= views(ls@));
            }
            let flat = join_chars(&parts, "; ");
            let cut = truncate_chars(&flat, 300);
            let mut d = chars_of(detail.as_str());
            push_str(&mut d, ": ");
            push_all(&mut d, &cut);
            PikeError::Parse { source_name, detail: string_of(&d) }
        },
        other => other,
    }
}

// ---------------------------------------------------------------------------
// Small helpers.
// ---------------------------------------------------------------------------

/// The kernel release of `uname -r` without a Fedora variant tag (`+debug`, `+16k`);
/// Debian releases such as `6.12.38+deb13-amd64` keep their `+` part, which belongs to
/// the version.
pub open spec fn kernel_release_spec(osrelease: Seq<char>) -> Seq<char> {
    match rsplit_once_char(osrelease, '+') {
        Some((base, tag)) => if tag.len() > 0 && !contains(tag, "-"@) {
            base
        } else {
            osrelease
        },
        None => osrelease,
    }
}

pub fn kernel_release(osrelease: &str) -> (r: String)
    ensures
        r@ == kernel_release_spec(osrelease@),
{
    let v = chars_of(osrelease);
    match rsplit_once_ch(&v, '+') {
        Some((base, tag)) => {
            if tag.len() > 0 && !contains_str(&tag, "-") {
                string_of(&base)
            } else {
                string_of(&v)
            }
        },
        None => string_of(&v),
    }
}

pub open spec fn items_of_kind(items: Seq<CleanupItemView>, kind: CleanupKind) -> Seq<CleanupItemView>
    decreases items.len(),
{
    if items.len() == 0 {
        items
    } else {
        let r = items_of_kind(items.drop_last(), kind);
        if items.last().kind == kind {
            r.push(items.last())
        } else {
            r
        }
    }
}

/// The items of one kind, in order.
pub fn of_kind(items: &[CleanupItem], kind: CleanupKind) -> (r: Vec<CleanupItem>)
    ensures
        item_views(r@) == items_of_kind(item_views(items@), kind),
{
    let ghost iv = item_views(items@);
    let mut r: Vec<CleanupItem> = Vec::new();
    let mut i: usize = 0;
    proof {
        assert(iv.take(0) =~= Seq::<CleanupItemView>::empty());
        assert(item_views(r@) =~= Seq::<CleanupItemView>::empty());
    }
    while i < items.len()
        invariant
            0 <= i <= items.len(),
            iv == item_views(items@),
            item_views(r@) == items_of_kind(iv.take(i as int), kind),
        decreases items.len() - i,
    {
        proof {
            assert(iv.take(i + 1).drop_last() =~= iv.take(i as int));
            assert(iv.take(i + 1).last() == items@[i as int]@);
        }
        if items[i].kind == kind {
            let x = items[i].clone();
            proof {
                lemma_item_views_push(r@, x);
            }
            r.push(x);
        }
        i = i + 1;
    }
    proof {
        assert(iv.take(iv.len() as int) =~= iv);
    }
    r
}

/// The items of one source, in order.
pub open spec fn items_of_source(items: Seq<CleanupItemView>, st: SourceType) -> Seq<CleanupItemView>
    decreases items.len(),
{
    if items.len() == 0 {
        items
    } else {
        let r = items_of_source(items.drop_last(), st);
        if items.last().source == st {
            r.push(items.last())
        } else {
            r
        }
    }
}

fn of_source(items: &[CleanupItem], st: SourceType) -> (r: Vec<CleanupItem>)
    ensures
        item_views(r@) == items_of_source(item_views(items@), st),
{
    let ghost iv = item_views(items@);
    let mut r: Vec<CleanupItem> = Vec::new();
    let mut i: usize = 0;
    proof {
        assert(iv.take(0) =~= Seq::<CleanupItemView>::empty());
        assert(item_views(r@) =~= Seq::<CleanupItemView>::empty());
    }
    while i < items.len()
        invariant
            0 <= i <= items.len(),
            iv == item_views(items@),
            item_views(r@) == items_of_source(iv.take(i as int), st),
        decreases items.len() - i,
    {
        proof {
            assert(iv.take(i + 1).drop_last() =~= iv.take(i as int));
            assert(iv.take(i + 1).last() == items@[i as int]@);
        }
        if items[i].source == st {
            let x = items[i].clone();
            proof {
                lemma_item_views_push(r@, x);
            }
            r.push(x);
        }
        i = i + 1;
    }
    proof {
        assert(iv.take(iv.len() as int) =~= iv);
    }
    r
}

/// The items grouped by source, in source order, each source that has items once.
pub open spec fn groups_of(items: Seq<CleanupItemView>) -> Seq<(SourceType, Seq<CleanupItemView>)> {
    let one = |st: SourceType|
        if items_of_source(items, st).len() > 0 {
            seq![(st, items_of_source(items, st))]
        } else {
            Seq::<(SourceType, Seq<CleanupItemView>)>::empty()
        };
    one(SourceType::Dnf) + one(SourceType::Flatpak) + one(SourceType::Apt)
}

/// Cleanup items split by source (dnf, flatpak, apt), sources without items left out.
pub fn items_by_source(items: &[CleanupItem]) -> (r: Vec<(SourceType, Vec<CleanupItem>)>)
    ensures
        r@.map_values(|g: (SourceType, Vec<CleanupItem>)| (g.0, item_views(g.1@))) == groups_of(
            item_views(items@),
        ),
{
    let mut out: Vec<(SourceType, Vec<CleanupItem>)> = Vec::new();
    let d = of_source(items, SourceType::Dnf);
    let f = of_source(items, SourceType::Flatpak);
    let a = of_source(items, SourceType::Apt);
    if d.len() > 0 {
        out.push((SourceType::Dnf, d));
    }
    if f.len() > 0 {
        out.push((SourceType::Flatpak, f));
    }
    if a.len() > 0 {
        out.push((SourceType::Apt, a));
    }
    proof {
        assert(out@.map_values(|g: (SourceType, Vec<CleanupItem>)| (g.0, item_views(g.1@)))
            =~= groups_of(item_views(items@)));
    }
    out
}

/// The error for a source that has items but is not active.
pub fn source_not_active(st: SourceType) -> (r: PikeError)
    ensures
        r matches PikeError::Other(m) && m@ == display_name_spec(st) + " source is not active"@,
{
    let mut v = chars_of(st.display_name());
    push_str(&mut v, " source is not active");
    PikeError::Other(string_of(&v))
}

/// The sum of the known sizes.
pub open spec fn sizes_sum(items: Seq<CleanupItemView>) -> nat
    decreases items.len(),
{
    if items.len() == 0 {
        0
    } else {
        sizes_sum(items.drop_last()) + match items.last().size {
            Some(s) => s as nat,
            None => 0,
        }
    }
}

/// The total of the known sizes, wrapping at 2^64 as unsigned addition does in a
/// release build.
pub fn total_size(items: &[CleanupItem]) -> (r: u64)
    ensures
        r as nat == sizes_sum(item_views(items@)) % 0x1_0000_0000_0000_0000,
{
    let ghost iv = item_views(items@);
    let mut t: u64 = 0;
    let mut i: usize = 0;
    while i < items.len()
        invariant
            0 <= i <= items.len(),
            iv == item_views(items@),
            t as nat == sizes_sum(iv.take(i as int)) % 0x1_0000_0000_0000_0000,
        decreases items.len() - i,
    {
        proof {
            assert(iv.take(i + 1).drop_last() =~= iv.take(i as int));
            assert(iv.take(i + 1).last() == items@[i as int]@);
        }
        let add: u64 = match items[i].size {
            Some(s) => s,
            None => 0,
        };
        proof {
            let m: int = 0x1_0000_0000_0000_0000;
            let prev = sizes_sum(iv.take(i as int)) as int;
            vstd::arithmetic::div_mod::lemma_add_mod_noop(prev, add as int, m);
            vstd::arithmetic::div_mod::lemma_mod_twice(prev, m);
            vstd::arithmetic::div_mod::lemma_small_mod(add as nat, m as nat);
            if t as int + add as int >= m {
                vstd::arithmetic::div_mod::lemma_mod_sub_multiples_vanish(t as int + add as int, m);
                vstd::arithmetic::div_mod::lemma_small_mod((t as int + add as int - m) as nat, m as nat);
            } else {
                vstd::arithmetic::div_mod::lemma_small_mod((t as int + add as int) as nat, m as nat);
            }
        }
        t = t.wrapping_add(add);
        i = i + 1;
    }
    proof {
        assert(iv.take(iv.len() as int) =~= iv);
    }
    t
}

// ---------------------------------------------------------------------------
// The order of a cleanup scan.
// ---------------------------------------------------------------------------

pub open spec fn kind_rank(k: CleanupKind) -> int {
    match k {
        CleanupKind::Orphan => 0,
        CleanupKind::UnusedRuntime => 1,
        CleanupKind::OldKernel => 2,
        CleanupKind::Cache => 3,
    }
}

pub open spec fn rank_order(a: int, b: int) -> int {
    if a < b {
        -1
    } else if a > b {
        1
    } else {
        0
    }
}

/// -1, 0 or 1 as item `a` is listed before, with or after `b`: by kind, then source,
/// then (old kernels) newest first, then name.
pub open spec fn scan_order(a: CleanupItemView, b: CleanupItemView) -> int {
    if kind_rank(a.kind) != kind_rank(b.kind) {
        rank_order(kind_rank(a.kind), kind_rank(b.kind))
    } else if crate::package::source_rank(a.source) != crate::package::source_rank(b.source) {
        rank_order(crate::package::source_rank(a.source), crate::package::source_rank(b.source))
    } else if a.kind == CleanupKind::OldKernel && version_order(b.version, a.version) != 0 {
        version_order(b.version, a.version)
    } else {
        str_order(a.name, b.name)
    }
}

proof fn lemma_scan_order(a: CleanupItemView, b: CleanupItemView, c: CleanupItemView)
    ensures
        scan_order(a, b) == -scan_order(b, a),
        scan_order(a, b) <= 0 && scan_order(b, c) <= 0 ==> scan_order(a, c) <= 0,
{
    lemma_version_order_antisym(a.version, b.version);
    lemma_version_order_antisym(b.version, c.version);
    lemma_version_order_antisym(a.version, c.version);
    lemma_str_order(a.name, b.name, c.name);
    lemma_str_order(b.name, a.name, c.name);
    lemma_str_order(a.name, c.name, b.name);
    lemma_version_order_all(a.version, b.version, c.version);
}

/// Every chain of the version order through three versions.
proof fn lemma_version_order_all(x: Seq<char>, y: Seq<char>, z: Seq<char>)
    ensures
        version_order(x, y) <= 0 && version_order(y, z) <= 0 ==> version_order(x, z) <= 0,
        version_order(y, x) <= 0 && version_order(z, y) <= 0 ==> version_order(z, x) <= 0,
        version_order(x, z) <= 0 && version_order(z, y) <= 0 ==> version_order(x, y) <= 0,
        version_order(y, z) <= 0 && version_order(z, x) <= 0 ==> version_order(y, x) <= 0,
        version_order(z, x) <= 0 && version_order(x, y) <= 0 ==> version_order(z, y) <= 0,
        version_order(y, x) <= 0 && version_order(x, z) <= 0 ==> version_order(y, z) <= 0,
{
    lemma_version_order_antisym(x, y);
    lemma_version_order_antisym(y, z);
    lemma_version_order_antisym(x, z);
    if version_order(x, y) <= 0 && version_order(y, z) <= 0 {
        lemma_version_order_trans(x, y, z);
    }
    if version_order(z, y) <= 0 && version_order(y, x) <= 0 {
        lemma_version_order_trans(z, y, x);
    }
    if version_order(x, z) <= 0 && version_order(z, y) <= 0 {
        lemma_version_order_trans(x, z, y);
    }
    if version_order(y, z) <= 0 && version_order(z, x) <= 0 {
        lemma_version_order_trans(y, z, x);
    }
    if version_order(z, x) <= 0 && version_order(x, y) <= 0 {
        lemma_version_order_trans(z, x, y);
    }
    if version_order(y, x) <= 0 && version_order(x, z) <= 0 {
        lemma_version_order_trans(y, x, z);
    }
}

/// Where item `x` goes: before the first item listed after it.
pub open spec fn scan_pos(s: Seq<CleanupItemView>, x: CleanupItemView) -> nat
    decreases s.len(),
{
    if s.len() == 0 {
        0
    } else if scan_order(x, s[0]) < 0 {
        0
    } else {
        1 + scan_pos(s.drop_first(), x)
    }
}

/// The items in scan order; items that tie keep their order.
pub open spec fn scan_sorted(s: Seq<CleanupItemView>) -> Seq<CleanupItemView>
    decreases s.len(),
{
    if s.len() == 0 {
        s
    } else {
        let r = scan_sorted(s.drop_last());
        r.insert(scan_pos(r, s.last()) as int, s.last())
    }
}

proof fn lemma_scan_pos(s: Seq<CleanupItemView>, x: CleanupItemView)
    ensures
        scan_pos(s, x) <= s.len(),
        forall|i: int| 0 <= i < scan_pos(s, x) ==> scan_order(x, #[trigger] s[i]) >= 0,
        scan_pos(s, x) < s.len() ==> scan_order(x, s[scan_pos(s, x) as int]) < 0,
    decreases s.len(),
{
    if s.len() > 0 && scan_order(x, s[0]) >= 0 {
        lemma_scan_pos(s.drop_first(), x);
        assert forall|i: int| 0 <= i < scan_pos(s, x) implies scan_order(x, #[trigger] s[i]) >= 0 by {
            if i > 0 {
                assert(s[i] == s.drop_first()[i - 1]);
            }
        }
        if scan_pos(s, x) < s.len() {
            assert(s[scan_pos(s, x) as int] == s.drop_first()[scan_pos(s.drop_first(), x) as int]);
        }
    }
}

/// The scan order is sorted: no item is listed after one that belongs after it.
pub proof fn lemma_scan_sorted(s: Seq<CleanupItemView>)
    ensures
        forall|i: int, j: int|
            0 <= i < j < scan_sorted(s).len() ==> scan_order(
                #[trigger] scan_sorted(s)[i],
                #[trigger] scan_sorted(s)[j],
            ) <= 0,
    decreases s.len(),
{
    if s.len() > 0 {
        lemma_scan_sorted(s.drop_last());
        let r = scan_sorted(s.drop_last());
        let x = s.last();
        lemma_scan_pos(r, x);
        let p = scan_pos(r, x) as int;
        let t = r.insert(p, x);
        assert forall|i: int, j: int| 0 <= i < j < t.len() implies scan_order(
            #[trigger] t[i],
            #[trigger] t[j],
        ) <= 0 by {
            if j < p {
                assert(t[i] == r[i] && t[j] == r[j]);
            } else if j == p {
                assert(t[i] == r[i] && t[j] == x);
                lemma_scan_order(x, r[i], r[i]);
            } else if i == p {
                assert(t[i] == x && t[j] == r[j - 1]);
                lemma_scan_order(x, r[p], r[j - 1]);
            } else if i < p {
                assert(t[i] == r[i] && t[j] == r[j - 1]);
                lemma_scan_order(x, r[i], r[i]);
                lemma_scan_order(x, r[p], r[j - 1]);
                lemma_scan_order(r[i], x, r[j - 1]);
            } else {
                assert(t[i] == r[i - 1] && t[j] == r[j - 1]);
            }
        }
    }
}

/// The scan order holds the items it was given, each as often.
pub proof fn lemma_scan_sorted_permutes(s: Seq<CleanupItemView>)
    ensures
        scan_sorted(s).to_multiset() == s.to_multiset(),
    decreases s.len(),
{
    if s.len() > 0 {
        lemma_scan_sorted_permutes(s.drop_last());
        let r = scan_sorted(s.drop_last());
        lemma_scan_pos(r, s.last());
        assert(s.drop_last().push(s.last()) =~= s);
    }
}

fn scan_sign(a: &CleanupItem, b: &CleanupItem) -> (r: i8)
    ensures
        r as int == scan_order(a@, b@),
{
    let ka: u8 = match a.kind {
        CleanupKind::Orphan => 0,
        CleanupKind::UnusedRuntime => 1,
        CleanupKind::OldKernel => 2,
        CleanupKind::Cache => 3,
    };
    let kb: u8 = match b.kind {
        CleanupKind::Orphan => 0,
        CleanupKind::UnusedRuntime => 1,
        CleanupKind::OldKernel => 2,
        CleanupKind::Cache => 3,
    };
    if ka != kb {
        return if ka < kb {
            -1
        } else {
            1
        };
    }
    let sa = a.source.rank();
    let sb = b.source.rank();
    if sa != sb {
        return if sa < sb {
            -1
        } else {
            1
        };
    }
    if a.kind == CleanupKind::OldKernel {
        let v = version_sign(b.version.as_str(), a.version.as_str());
        if v != 0 {
            return v;
        }
    }
    let an = chars_of(a.name.as_str());
    let bn = chars_of(b.name.as_str());
    if chars_eq(&an, &bn) {
        0
    } else if chars_lt(&an, &bn) {
        -1
    } else {
        1
    }
}

/// Orders the items of a cleanup scan by kind, source, then (old kernels) newest
/// first, then name.
pub fn order_scan_items(items: Vec<CleanupItem>) -> (r: Vec<CleanupItem>)
    ensures
        item_views(r@) == scan_sorted(item_views(items@)),
{
    let ghost iv = item_views(items@);
    let mut r: Vec<CleanupItem> = Vec::new();
    let mut i: usize = 0;
    proof {
        assert(iv.take(0) =~= Seq::<CleanupItemView>::empty());
        assert(item_views(r@) =~= Seq::<CleanupItemView>::empty());
    }
    while i < items.len()
        invariant
            0 <= i <= items.len(),
            iv == item_views(items@),
            item_views(r@) == scan_sorted(iv.take(i as int)),
        decreases items.len() - i,
    {
        let x = items[i].clone();
        proof {
            assert(iv.take(i + 1).drop_last() =~= iv.take(i as int));
            assert(iv.take(i + 1).last() == x@);
        }
        let ghost vs = item_views(r@);
        let mut pos: usize = 0;
        proof {
            assert(vs.skip(0) =~= vs);
        }
        while pos < r.len() && scan_sign(&x, &r[pos]) >= 0
            invariant
                0 <= pos <= r@.len(),
                vs == item_views(r@),
                scan_pos(vs, x@) == pos + scan_pos(vs.skip(pos as int), x@),
            decreases r.len() - pos,
        {
            proof {
                assert(vs.skip(pos as int)[0] == vs[pos as int]);
                assert(vs.skip(pos as int).drop_first() =~= vs.skip(pos + 1));
            }
            pos = pos + 1;
        }
        proof {
            if pos < r.len() {
                assert(vs.skip(pos as int)[0] == vs[pos as int]);
            }
        }
        r.insert(pos, x);
        proof {
            assert(item_views(r@) =~= vs.insert(pos as int, x@));
        }
        i = i + 1;
    }
    proof {
        assert(iv.take(iv.len() as int) =~= iv);
    }
    r
}

} // verus!
