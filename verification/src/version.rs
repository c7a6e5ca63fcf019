//! Version ordering with rpmvercmp semantics: versions are read as sequences of
//! tokens (numbers, letter runs, `~` and `^`; everything else separates them), and
//! compared token by token, `~` sorting before the end of a version and `^` after it.
use vstd::prelude::*;

use std::cmp::Ordering;

use crate::order::{chars_lt, lemma_lt_asym, lemma_lt_irrefl, lemma_lt_total, lemma_lt_trans, seq_lt};
use crate::text::{chars_eq, chars_of, copy_range, is_alpha, is_digit};

verus! {

/// A character that only separates tokens.
pub open spec fn is_version_sep(c: char) -> bool {
    !(is_digit(c) || is_alpha(c) || c == '~' || c == '^')
}

pub open spec fn skip_seps(s: Seq<char>) -> Seq<char>
    decreases s.len(),
{
    if s.len() > 0 && is_version_sep(s[0]) {
        skip_seps(s.drop_first())
    } else {
        s
    }
}

/// The length of the run of digits (`numeric`) or ASCII letters that `s` starts with.
pub open spec fn seg_len(s: Seq<char>, numeric: bool) -> nat
    decreases s.len(),
{
    if s.len() > 0 && (if numeric {
        is_digit(s[0])
    } else {
        is_alpha(s[0])
    }) {
        1 + seg_len(s.drop_first(), numeric)
    } else {
        0
    }
}

pub open spec fn trim_zeros(s: Seq<char>) -> Seq<char>
    decreases s.len(),
{
    if s.len() > 0 && s[0] == '0' {
        trim_zeros(s.drop_first())
    } else {
        s
    }
}

/// Skipping separators leaves a suffix that does not start with one.
pub proof fn lemma_skip_seps(s: Seq<char>)
    ensures
        skip_seps(s).len() <= s.len(),
        s.skip(s.len() - skip_seps(s).len()) == skip_seps(s),
        skip_seps(s).len() > 0 ==> !is_version_sep(skip_seps(s)[0]),
    decreases s.len(),
{
    if s.len() > 0 && is_version_sep(s[0]) {
        lemma_skip_seps(s.drop_first());
        assert(s.drop_first().skip(s.drop_first().len() - skip_seps(s).len()) =~= s.skip(
            s.len() - skip_seps(s).len(),
        ));
    } else {
        assert(s.skip(0) =~= s);
    }
}

/// A segment is a run of digits, or of letters, at the start of the text.
pub proof fn lemma_seg_len(s: Seq<char>, numeric: bool)
    ensures
        seg_len(s, numeric) <= s.len(),
        forall|k: int|
            0 <= k < seg_len(s, numeric) ==> (if numeric {
                is_digit(#[trigger] s[k])
            } else {
                is_alpha(s[k])
            }),
        seg_len(s, numeric) < s.len() ==> !(if numeric {
            is_digit(s[seg_len(s, numeric) as int])
        } else {
            is_alpha(s[seg_len(s, numeric) as int])
        }),
    decreases s.len(),
{
    if s.len() > 0 && (if numeric {
        is_digit(s[0])
    } else {
        is_alpha(s[0])
    }) {
        lemma_seg_len(s.drop_first(), numeric);
        assert forall|k: int| 0 <= k < seg_len(s, numeric) implies (if numeric {
            is_digit(#[trigger] s[k])
        } else {
            is_alpha(s[k])
        }) by {
            if k > 0 {
                assert(s[k] == s.drop_first()[k - 1]);
            }
        }
        if seg_len(s, numeric) < s.len() {
            assert(s[seg_len(s, numeric) as int] == s.drop_first()[seg_len(
                s.drop_first(),
                numeric,
            ) as int]);
        }
    }
}

/// Trimming leading zeros leaves a suffix that does not start with one.
pub proof fn lemma_trim_zeros(s: Seq<char>)
    ensures
        trim_zeros(s).len() <= s.len(),
        s.skip(s.len() - trim_zeros(s).len()) == trim_zeros(s),
        trim_zeros(s).len() > 0 ==> trim_zeros(s)[0] != '0',
    decreases s.len(),
{
    if s.len() > 0 && s[0] == '0' {
        lemma_trim_zeros(s.drop_first());
        assert(s.drop_first().skip(s.drop_first().len() - trim_zeros(s).len()) =~= s.skip(
            s.len() - trim_zeros(s).len(),
        ));
    } else {
        assert(s.skip(0) =~= s);
    }
}

/// The tokens of a version.
pub enum VersionToken {
    Tilde,
    Caret,
    Alpha(Seq<char>),
    Num(Seq<char>),
}

/// The tokens of `s`: letter runs as they are, digit runs without leading zeros.
pub open spec fn tokens(s: Seq<char>) -> Seq<VersionToken>
    decreases s.len(),
{
    let t = skip_seps(s);
    proof {
        lemma_skip_seps(s);
    }
    if t.len() == 0 {
        Seq::<VersionToken>::empty()
    } else if t[0] == '~' {
        seq![VersionToken::Tilde] + tokens(t.drop_first())
    } else if t[0] == '^' {
        seq![VersionToken::Caret] + tokens(t.drop_first())
    } else {
        let numeric = is_digit(t[0]);
        let n = seg_len(t, numeric);
        proof {
            lemma_seg_len(t, numeric);
        }
        let seg = t.take(n as int);
        let tok = if numeric {
            VersionToken::Num(trim_zeros(seg))
        } else {
            VersionToken::Alpha(seg)
        };
        if n == 0 {
            Seq::<VersionToken>::empty()
        } else {
            seq![tok] + tokens(t.skip(n as int))
        }
    }
}

/// Where a token sorts: `~` first, then the end of a version, `^`, letters, numbers.
pub open spec fn rank(t: VersionToken) -> int {
    match t {
        VersionToken::Tilde => 0,
        VersionToken::Caret => 2,
        VersionToken::Alpha(_) => 3,
        VersionToken::Num(_) => 4,
    }
}

/// The rank of the end of a version.
pub open spec fn end_rank() -> int {
    1
}

/// -1, 0 or 1 as `p` sorts before, with or after `q` (`str`'s order).
pub open spec fn str_order(p: Seq<char>, q: Seq<char>) -> int {
    if p == q {
        0
    } else if seq_lt(p, q) {
        -1
    } else {
        1
    }
}

pub open spec fn token_order(x: VersionToken, y: VersionToken) -> int {
    if rank(x) < rank(y) {
        -1
    } else if rank(x) > rank(y) {
        1
    } else {
        match (x, y) {
            (VersionToken::Alpha(p), VersionToken::Alpha(q)) => str_order(p, q),
            (VersionToken::Num(p), VersionToken::Num(q)) => if p.len() < q.len() {
                -1
            } else if p.len() > q.len() {
                1
            } else {
                str_order(p, q)
            },
            _ => 0,
        }
    }
}

/// Token sequences compared token by token; the shorter one continues with the end
/// of a version.
pub open spec fn tokens_order(ta: Seq<VersionToken>, tb: Seq<VersionToken>) -> int
    decreases ta.len(),
{
    if ta.len() == 0 && tb.len() == 0 {
        0
    } else if ta.len() == 0 {
        if rank(tb[0]) < end_rank() {
            1
        } else {
            -1
        }
    } else if tb.len() == 0 {
        if rank(ta[0]) < end_rank() {
            -1
        } else {
            1
        }
    } else if token_order(ta[0], tb[0]) != 0 {
        token_order(ta[0], tb[0])
    } else {
        tokens_order(ta.drop_first(), tb.drop_first())
    }
}

/// -1, 0 or 1 as version `a` is older than, as new as, or newer than `b`.
pub open spec fn version_order(a: Seq<char>, b: Seq<char>) -> int {
    tokens_order(tokens(a), tokens(b))
}

// ---------------------------------------------------------------------------
// Laws of the order.
// ---------------------------------------------------------------------------

/// The string comparison is reflexive, antisymmetric and transitive.
pub proof fn lemma_str_order(p: Seq<char>, q: Seq<char>, r: Seq<char>)
    ensures
        str_order(p, p) == 0,
        str_order(p, q) == -str_order(q, p),
        str_order(p, q) <= 0 && str_order(q, r) <= 0 ==> str_order(p, r) <= 0,
        str_order(p, q) < 0 && str_order(q, r) <= 0 ==> str_order(p, r) < 0,
        str_order(p, q) <= 0 && str_order(q, r) < 0 ==> str_order(p, r) < 0,
{
    lemma_lt_irrefl(p);
    lemma_lt_asym(p, q);
    lemma_lt_total(p, q);
    lemma_lt_asym(p, r);
    if seq_lt(p, q) && seq_lt(q, r) {
        lemma_lt_trans(p, q, r);
    }
    if seq_lt(p, q) && q == r {
    }
    if p == q && seq_lt(q, r) {
    }
    if seq_lt(p, q) && seq_lt(q, r) && p == r {
        lemma_lt_asym(p, q);
    }
}

proof fn lemma_token_order(x: VersionToken, y: VersionToken, z: VersionToken)
    ensures
        token_order(x, x) == 0,
        token_order(x, y) == -token_order(y, x),
        token_order(x, y) == 0 ==> x == y,
        token_order(x, y) <= 0 && token_order(y, z) <= 0 ==> token_order(x, z) <= 0,
        token_order(x, y) < 0 && token_order(y, z) <= 0 ==> token_order(x, z) < 0,
        token_order(x, y) <= 0 && token_order(y, z) < 0 ==> token_order(x, z) < 0,
{
    match (x, y, z) {
        (VersionToken::Alpha(p), VersionToken::Alpha(q), VersionToken::Alpha(r)) => {
            lemma_str_order(p, q, r);
        },
        (VersionToken::Num(p), VersionToken::Num(q), VersionToken::Num(r)) => {
            lemma_str_order(p, q, r);
            if p.len() == q.len() {
                lemma_str_order(p, q, r);
            }
        },
        _ => {
            match x {
                VersionToken::Alpha(p) => {
                    lemma_str_order(p, p, p);
                },
                VersionToken::Num(p) => {
                    lemma_str_order(p, p, p);
                },
                _ => {},
            }
            match (x, y) {
                (VersionToken::Alpha(p), VersionToken::Alpha(q)) => {
                    lemma_str_order(p, q, q);
                },
                (VersionToken::Num(p), VersionToken::Num(q)) => {
                    lemma_str_order(p, q, q);
                },
                _ => {},
            }
            match (y, z) {
                (VersionToken::Alpha(p), VersionToken::Alpha(q)) => {
                    lemma_str_order(p, q, q);
                },
                (VersionToken::Num(p), VersionToken::Num(q)) => {
                    lemma_str_order(p, q, q);
                },
                _ => {},
            }
            match (x, z) {
                (VersionToken::Alpha(p), VersionToken::Alpha(q)) => {
                    lemma_str_order(p, q, q);
                },
                (VersionToken::Num(p), VersionToken::Num(q)) => {
                    lemma_str_order(p, q, q);
                },
                _ => {},
            }
        },
    }
}

proof fn lemma_tokens_order(ta: Seq<VersionToken>, tb: Seq<VersionToken>, tc: Seq<VersionToken>)
    ensures
        tokens_order(ta, ta) == 0,
        tokens_order(ta, tb) == -tokens_order(tb, ta),
        tokens_order(ta, tb) == 0 ==> ta == tb,
        tokens_order(ta, tb) <= 0 && tokens_order(tb, tc) <= 0 ==> tokens_order(ta, tc) <= 0,
    decreases ta.len() + tb.len() + tc.len(),
{
    if ta.len() > 0 {
        lemma_token_order(ta[0], ta[0], ta[0]);
    }
    if ta.len() > 0 && tb.len() > 0 {
        lemma_token_order(ta[0], tb[0], tb[0]);
    }
    if ta.len() > 0 && tb.len() > 0 && tc.len() > 0 {
        lemma_token_order(ta[0], tb[0], tc[0]);
        lemma_token_order(tb[0], tc[0], tc[0]);
        lemma_token_order(ta[0], tc[0], tc[0]);
        lemma_tokens_order(ta.drop_first(), tb.drop_first(), tc.drop_first());
    } else if ta.len() > 0 && tb.len() > 0 {
        lemma_tokens_order(ta.drop_first(), tb.drop_first(), tc);
    } else if ta.len() > 0 && tc.len() > 0 {
        lemma_token_order(ta[0], tc[0], tc[0]);
        lemma_tokens_order(ta.drop_first(), tb, tc.drop_first());
    } else if tb.len() > 0 && tc.len() > 0 {
        lemma_token_order(tb[0], tc[0], tc[0]);
        lemma_tokens_order(ta, tb.drop_first(), tc.drop_first());
    } else if ta.len() > 0 {
        lemma_tokens_order(ta.drop_first(), tb, tc);
    }
    if ta.len() > 0 && tb.len() > 0 && token_order(ta[0], tb[0]) == 0 && tokens_order(
        ta.drop_first(),
        tb.drop_first(),
    ) == 0 {
        assert(ta =~= seq![ta[0]] + ta.drop_first());
        assert(tb =~= seq![tb[0]] + tb.drop_first());
    }
    if ta.len() == 0 && tb.len() == 0 {
        assert(ta =~= tb);
    }
}

/// Every version is as new as itself.
pub proof fn lemma_version_order_refl(a: Seq<char>)
    ensures
        version_order(a, a) == 0,
{
    lemma_tokens_order(tokens(a), tokens(a), tokens(a));
}

/// Comparing the other way round gives the opposite answer.
pub proof fn lemma_version_order_antisym(a: Seq<char>, b: Seq<char>)
    ensures
        version_order(a, b) == -version_order(b, a),
        version_order(a, b) == -1 || version_order(a, b) == 0 || version_order(a, b) == 1,
{
    lemma_tokens_order(tokens(a), tokens(b), tokens(b));
    lemma_tokens_order_range(tokens(a), tokens(b));
}

/// If `a` is not newer than `b` and `b` not newer than `c`, `a` is not newer than `c`.
pub proof fn lemma_version_order_trans(a: Seq<char>, b: Seq<char>, c: Seq<char>)
    requires
        version_order(a, b) <= 0,
        version_order(b, c) <= 0,
    ensures
        version_order(a, c) <= 0,
{
    lemma_tokens_order(tokens(a), tokens(b), tokens(c));
}

proof fn lemma_tokens_order_range(ta: Seq<VersionToken>, tb: Seq<VersionToken>)
    ensures
        tokens_order(ta, tb) == -1 || tokens_order(ta, tb) == 0 || tokens_order(ta, tb) == 1,
    decreases ta.len(),
{
    if ta.len() > 0 && tb.len() > 0 {
        lemma_tokens_order_range(ta.drop_first(), tb.drop_first());
    }
}

// ---------------------------------------------------------------------------
// Computing the order.
// ---------------------------------------------------------------------------

/// The first position at or after `i` that does not hold a separator.
pub fn skip_separators(v: &[char], i: usize) -> (k: usize)
    requires
        i <= v.len(),
    ensures
        i <= k <= v.len(),
        v@.skip(k as int) == skip_seps(v@.skip(i as int)),
{
    let mut k = i;
    while k < v.len() && !(('0' <= v[k] && v[k] <= '9') || ('a' <= v[k] && v[k] <= 'z') || (
    'A' <= v[k] && v[k] <= 'Z') || v[k] == '~' || v[k] == '^')
        invariant
            i <= k <= v.len(),
            skip_seps(v@.skip(k as int)) == skip_seps(v@.skip(i as int)),
        decreases v.len() - k,
    {
        proof {
            assert(v@.skip(k as int).drop_first() =~= v@.skip(k + 1));
        }
        k = k + 1;
    }
    k
}

fn in_segment(c: char, numeric: bool) -> (r: bool)
    ensures
        r == (if numeric {
            is_digit(c)
        } else {
            is_alpha(c)
        }),
{
    if numeric {
        '0' <= c && c <= '9'
    } else {
        ('a' <= c && c <= 'z') || ('A' <= c && c <= 'Z')
    }
}

/// The end of the run of digits (`numeric`) or ASCII letters that starts at `i`.
pub fn split_segment(v: &[char], i: usize, numeric: bool) -> (k: usize)
    requires
        i <= v.len(),
    ensures
        i <= k <= v.len(),
        k - i == seg_len(v@.skip(i as int), numeric),
{
    let mut k = i;
    while k < v.len() && in_segment(v[k], numeric)
        invariant
            i <= k <= v.len(),
            seg_len(v@.skip(i as int), numeric) == (k - i) + seg_len(v@.skip(k as int), numeric),
        decreases v.len() - k,
    {
        proof {
            assert(v@.skip(k as int).drop_first() =~= v@.skip(k + 1));
        }
        k = k + 1;
    }
    k
}

/// The first position in `lo..hi` after the leading zeros.
pub fn trim_leading_zeros(v: &[char], lo: usize, hi: usize) -> (k: usize)
    requires
        lo <= hi <= v.len(),
    ensures
        lo <= k <= hi,
        v@.subrange(k as int, hi as int) == trim_zeros(v@.subrange(lo as int, hi as int)),
{
    let mut k = lo;
    while k < hi && v[k] == '0'
        invariant
            lo <= k <= hi <= v.len(),
            trim_zeros(v@.subrange(k as int, hi as int)) == trim_zeros(
                v@.subrange(lo as int, hi as int),
            ),
        decreases hi - k,
    {
        proof {
            assert(v@.subrange(k as int, hi as int).drop_first() =~= v@.subrange(k + 1, hi as int));
        }
        k = k + 1;
    }
    k
}

fn str_sign(p: &[char], q: &[char]) -> (r: i8)
    ensures
        r as int == str_order(p@, q@),
{
    if chars_eq(p, q) {
        0
    } else if chars_lt(p, q) {
        -1
    } else {
        1
    }
}

/// `version_order` as -1, 0 or 1.
pub fn version_sign(a: &str, b: &str) -> (r: i8)
    ensures
        r as int == version_order(a@, b@),
{
    let av = chars_of(a);
    let bv = chars_of(b);
    let mut i: usize = 0;
    let mut j: usize = 0;
    proof {
        assert(av@.skip(0) =~= av@);
        assert(bv@.skip(0) =~= bv@);
    }
    loop
        invariant
            i <= av.len(),
            j <= bv.len(),
            av@ == a@,
            bv@ == b@,
            version_order(a@, b@) == tokens_order(
                tokens(av@.skip(i as int)),
                tokens(bv@.skip(j as int)),
            ),
        decreases av.len() - i + bv.len() - j,
    {
        let ghost sa = av@.skip(i as int);
        let ghost sb = bv@.skip(j as int);
        let i2 = skip_separators(&av, i);
        let j2 = skip_separators(&bv, j);
        proof {
            lemma_skip_seps(sa);
            lemma_skip_seps(sb);
            assert(av@.skip(i2 as int) == skip_seps(sa));
            assert(bv@.skip(j2 as int) == skip_seps(sb));
            if i2 < av.len() {
                assert(skip_seps(sa)[0] == av@[i2 as int]);
            }
            if j2 < bv.len() {
                assert(skip_seps(sb)[0] == bv@[j2 as int]);
            }
        }
        let ea = i2 == av.len();
        let eb = j2 == bv.len();
        let ta = if ea {
            0u8
        } else if av[i2] == '~' {
            1
        } else if av[i2] == '^' {
            2
        } else {
            3
        };
        let tb = if eb {
            0u8
        } else if bv[j2] == '~' {
            1
        } else if bv[j2] == '^' {
            2
        } else {
            3
        };
        proof {
            if i2 < av.len() {
                assert(av@.skip(i2 + 1) =~= skip_seps(sa).drop_first());
            }
            if j2 < bv.len() {
                assert(bv@.skip(j2 + 1) =~= skip_seps(sb).drop_first());
            }
        }
        if ta == 1 && tb == 1 || ta == 2 && tb == 2 {
            proof {
                let x = tokens(skip_seps(sa).drop_first());
                let y = tokens(skip_seps(sb).drop_first());
                let t = if ta == 1 {
                    VersionToken::Tilde
                } else {
                    VersionToken::Caret
                };
                assert(tokens(sa) == seq![t] + x);
                assert(tokens(sb) == seq![t] + y);
                assert((seq![t] + x).drop_first() =~= x);
                assert((seq![t] + y).drop_first() =~= y);
            }
            i = i2 + 1;
            j = j2 + 1;
            continue ;
        }
        if ta == 0 && tb == 0 {
            return 0;
        }
        if ta == 1 || (ta == 0 && tb == 2) {
            return -1;
        }
        if tb == 1 || (ta == 2 && tb == 0) {
            return 1;
        }
        if ta == 2 || ta == 0 {
            return -1;
        }
        if tb == 2 || tb == 0 {
            return 1;
        }
        // Both versions continue with a digit or a letter.

        let numeric = '0' <= av[i2] && av[i2] <= '9';
        let ie = split_segment(&av, i2, numeric);
        let je = split_segment(&bv, j2, numeric);
        let ghost ta_s = av@.skip(i2 as int);
        let ghost tb_s = bv@.skip(j2 as int);
        proof {
            lemma_seg_len(ta_s, numeric);
            lemma_seg_len(tb_s, numeric);
            assert(ta_s[0] == av@[i2 as int]);
            assert(tb_s[0] == bv@[j2 as int]);
            assert(av@.skip(ie as int) =~= ta_s.skip(ie - i2));
            assert(bv@.skip(je as int) =~= tb_s.skip(je - j2));
            assert(ta_s.take(ie - i2) =~= av@.subrange(i2 as int, ie as int));
            assert(tb_s.take(je - j2) =~= bv@.subrange(j2 as int, je as int));
        }
        if je == j2 {
            proof {
                let other = !numeric;
                lemma_seg_len(tb_s, other);
            }
            return if numeric {
                1
            } else {
                -1
            };
        }
        let c = if numeric {
            let za = trim_leading_zeros(&av, i2, ie);
            let zb = trim_leading_zeros(&bv, j2, je);
            let x = copy_range(&av, za, ie);
            let y = copy_range(&bv, zb, je);
            if x.len() < y.len() {
                -1i8
            } else if x.len() > y.len() {
                1
            } else {
                str_sign(&x, &y)
            }
        } else {
            let x = copy_range(&av, i2, ie);
            let y = copy_range(&bv, j2, je);
            str_sign(&x, &y)
        };
        proof {
            let n = (ie - i2) as nat;
            let m = (je - j2) as nat;
            assert(seg_len(ta_s, is_digit(ta_s[0])) == n);
            assert(is_digit(tb_s[0]) == numeric) by {
                if !numeric {
                    assert(is_alpha(tb_s[0]));
                }
            }
            assert(seg_len(tb_s, is_digit(tb_s[0])) == m);
            let tok_a = if numeric {
                VersionToken::Num(trim_zeros(ta_s.take(n as int)))
            } else {
                VersionToken::Alpha(ta_s.take(n as int))
            };
            let tok_b = if numeric {
                VersionToken::Num(trim_zeros(tb_s.take(m as int)))
            } else {
                VersionToken::Alpha(tb_s.take(m as int))
            };
            let x = tokens(ta_s.skip(n as int));
            let y = tokens(tb_s.skip(m as int));
            assert(tokens(sa) == seq![tok_a] + x);
            assert(tokens(sb) == seq![tok_b] + y);
            assert((seq![tok_a] + x).drop_first() =~= x);
            assert((seq![tok_b] + y).drop_first() =~= y);
            if c == 0 {
                assert(token_order(tok_a, tok_b) == 0);
            } else {
                assert(token_order(tok_a, tok_b) == c);
            }
        }
        if c != 0 {
            return c;
        }
        i = ie;
        j = je;
    }
}

/// -1, 0 or 1 as the meaning of an `Ordering`.
pub open spec fn ordering_value(o: Ordering) -> int {
    match o {
        Ordering::Less => -1,
        Ordering::Equal => 0,
        Ordering::Greater => 1,
    }
}

/// Compares two versions (rpmvercmp): `~` sorts before the end of a version, `^`
/// after it, numbers by value and above letters, separators only separate.
pub fn compare_versions(a: &str, b: &str) -> (r: Ordering)
    ensures
        ordering_value(r) == version_order(a@, b@),
{
    let s = version_sign(a, b);
    proof {
        lemma_version_order_antisym(a@, b@);
    }
    if s < 0 {
        Ordering::Less
    } else if s == 0 {
        Ordering::Equal
    } else {
        Ordering::Greater
    }
}

} // verus!
