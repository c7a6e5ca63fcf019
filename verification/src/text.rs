//! Text primitives over `Seq<char>`: the line, field and whitespace handling that
//! every command-output parser of the library is built from, each with an executable
//! counterpart on `Vec<char>` that is proved to compute it.
use vstd::prelude::*;

verus! {

/// `char::is_whitespace`: the Unicode `White_Space` property.
pub open spec fn is_ws(c: char) -> bool {
    ||| ('\t' <= c && c <= '\r')
    ||| c == ' '
    ||| c == '\u{85}'
    ||| c == '\u{A0}'
    ||| c == '\u{1680}'
    ||| ('\u{2000}' <= c && c <= '\u{200A}')
    ||| c == '\u{2028}'
    ||| c == '\u{2029}'
    ||| c == '\u{202F}'
    ||| c == '\u{205F}'
    ||| c == '\u{3000}'
}

pub fn is_whitespace(c: char) -> (r: bool)
    ensures
        r == is_ws(c),
{
    ('\t' <= c && c <= '\r') || c == ' ' || c == '\u{85}' || c == '\u{A0}' || c == '\u{1680}'
        || ('\u{2000}' <= c && c <= '\u{200A}') || c == '\u{2028}' || c == '\u{2029}'
        || c == '\u{202F}' || c == '\u{205F}' || c == '\u{3000}'
}

pub open spec fn is_digit(c: char) -> bool {
    '0' <= c && c <= '9'
}

pub open spec fn is_alpha(c: char) -> bool {
    ('a' <= c && c <= 'z') || ('A' <= c && c <= 'Z')
}

/// Views of a sequence of character buffers.
pub open spec fn views(s: Seq<Vec<char>>) -> Seq<Seq<char>> {
    s.map_values(|l: Vec<char>| l@)
}

/// Viewing a pushed buffer list appends the view of the new buffer.
pub proof fn lemma_views_push(s: Seq<Vec<char>>, x: Vec<char>)
    ensures
        views(s.push(x)) == views(s).push(x@),
{
    assert(views(s.push(x)) =~= views(s).push(x@));
}

// ---------------------------------------------------------------------------
// Conversions between `str`/`String` and character buffers.
// ---------------------------------------------------------------------------

pub fn chars_of(s: &str) -> (r: Vec<char>)
    ensures
        r@ == s@,
{
    let mut r: Vec<char> = Vec::new();
    for c in it: s.chars()
        invariant
            r@ == it.seq().take(it.index() as int),
    {
        r.push(c);
    }
    r
}

/// `String::push`: appends one character.
#[verifier::external_body]
fn push_char(s: &mut String, c: char)
    ensures
        final(s)@ == old(s)@.push(c),
{
    s.push(c);
}

pub fn string_of(v: &[char]) -> (s: String)
    ensures
        s@ == v@,
{
    let mut s = String::new();
    let mut i: usize = 0;
    while i < v.len()
        invariant
            0 <= i <= v.len(),
            s@ == v@.take(i as int),
        decreases v.len() - i,
    {
        push_char(&mut s, v[i]);
        proof {
            assert(v@.take(i + 1) =~= v@.take(i as int).push(v@[i as int]));
        }
        i = i + 1;
    }
    proof {
        assert(v@.take(v@.len() as int) =~= v@);
    }
    s
}

/// Appends `t` to the buffer `v`.
pub fn push_all(v: &mut Vec<char>, t: &[char])
    ensures
        final(v)@ == old(v)@ + t@,
{
    let mut i: usize = 0;
    while i < t.len()
        invariant
            0 <= i <= t.len(),
            v@ == old(v)@ + t@.take(i as int),
        decreases t.len() - i,
    {
        v.push(t[i]);
        proof {
            assert(t@.take(i + 1) =~= t@.take(i as int).push(t@[i as int]));
            assert(old(v)@ + t@.take(i + 1) =~= (old(v)@ + t@.take(i as int)).push(t@[i as int]));
        }
        i = i + 1;
    }
    proof {
        assert(t@.take(t@.len() as int) =~= t@);
    }
}

pub fn push_str(v: &mut Vec<char>, t: &str)
    ensures
        final(v)@ == old(v)@ + t@,
{
    let tc = chars_of(t);
    push_all(v, &tc);
}

pub fn copy_range(v: &[char], lo: usize, hi: usize) -> (r: Vec<char>)
    requires
        lo <= hi <= v.len(),
    ensures
        r@ == v@.subrange(lo as int, hi as int),
{
    let mut r: Vec<char> = Vec::new();
    let mut i = lo;
    while i < hi
        invariant
            lo <= i <= hi <= v.len(),
            r@ == v@.subrange(lo as int, i as int),
        decreases hi - i,
    {
        r.push(v[i]);
        proof {
            assert(v@.subrange(lo as int, i + 1) =~= v@.subrange(lo as int, i as int).push(
                v@[i as int],
            ));
        }
        i = i + 1;
    }
    r
}

pub fn chars_eq(a: &[char], b: &[char]) -> (r: bool)
    ensures
        r == (a@ == b@),
{
    if a.len() != b.len() {
        proof {
            if a@ == b@ {
                assert(a@.len() == b@.len());
            }
        }
        return false;
    }
    let mut i: usize = 0;
    while i < a.len()
        invariant
            0 <= i <= a.len(),
            a.len() == b.len(),
            forall|j: int| 0 <= j < i ==> a@[j] == b@[j],
        decreases a.len() - i,
    {
        if a[i] != b[i] {
            return false;
        }
        i = i + 1;
    }
    proof {
        assert(a@ =~= b@);
    }
    true
}

pub fn eq_str(a: &[char], b: &str) -> (r: bool)
    ensures
        r == (a@ == b@),
{
    let bc = chars_of(b);
    chars_eq(a, &bc)
}

// ---------------------------------------------------------------------------
// Prefixes, suffixes and search.
// ---------------------------------------------------------------------------

pub open spec fn starts_with(s: Seq<char>, p: Seq<char>) -> bool {
    p.len() <= s.len() && s.take(p.len() as int) == p
}

pub open spec fn ends_with(s: Seq<char>, p: Seq<char>) -> bool {
    p.len() <= s.len() && s.skip(s.len() - p.len()) == p
}

pub open spec fn matches_at(s: Seq<char>, p: Seq<char>, i: int) -> bool {
    0 <= i && i + p.len() <= s.len() && s.subrange(i, i + p.len()) == p
}

pub fn is_match_at(v: &[char], p: &[char], i: usize) -> (r: bool)
    ensures
        r == matches_at(v@, p@, i as int),
{
    if i > v.len() || p.len() > v.len() - i {
        return false;
    }
    let mut j: usize = 0;
    while j < p.len()
        invariant
            0 <= j <= p.len(),
            i + p.len() <= v.len(),
            forall|k: int| 0 <= k < j ==> v@[i + k] == p@[k],
        decreases p.len() - j,
    {
        if v[i + j] != p[j] {
            proof {
                assert(v@.subrange(i as int, i + p.len())[j as int] != p@[j as int]);
            }
            return false;
        }
        j = j + 1;
    }
    proof {
        assert(v@.subrange(i as int, i + p.len()) =~= p@);
    }
    true
}

pub fn has_prefix(v: &[char], p: &str) -> (r: bool)
    ensures
        r == starts_with(v@, p@),
{
    let pc = chars_of(p);
    let r = is_match_at(v, &pc, 0);
    proof {
        if r {
            assert(v@.take(pc@.len() as int) =~= v@.subrange(0, pc@.len() as int));
        }
        if starts_with(v@, p@) {
            assert(v@.take(pc@.len() as int) =~= v@.subrange(0, pc@.len() as int));
        }
    }
    r
}

pub fn has_suffix_chars(v: &[char], pc: &[char]) -> (r: bool)
    ensures
        r == ends_with(v@, pc@),
{
    if pc.len() > v.len() {
        return false;
    }
    let r = is_match_at(v, pc, v.len() - pc.len());
    proof {
        assert(v@.skip(v@.len() - pc@.len()) =~= v@.subrange(
            v@.len() - pc@.len(),
            v@.len() as int,
        ));
    }
    r
}

pub fn has_suffix(v: &[char], p: &str) -> (r: bool)
    ensures
        r == ends_with(v@, p@),
{
    let pc = chars_of(p);
    has_suffix_chars(v, &pc)
}

/// First index at or after `i` where `p` occurs in `s`.
pub open spec fn find_from(s: Seq<char>, p: Seq<char>, i: int) -> Option<int>
    decreases s.len() + 1 - i,
{
    if i < 0 || i + p.len() > s.len() {
        None
    } else if s.subrange(i, i + p.len()) == p {
        Some(i)
    } else {
        find_from(s, p, i + 1)
    }
}

pub open spec fn find(s: Seq<char>, p: Seq<char>) -> Option<int> {
    find_from(s, p, 0)
}

pub open spec fn contains(s: Seq<char>, p: Seq<char>) -> bool {
    find(s, p) is Some
}

/// A search from `i` finds the first match at or after `i`, or reports that none is there.
pub proof fn lemma_find_from_range(s: Seq<char>, p: Seq<char>, i: int)
    requires
        0 <= i,
    ensures
        find_from(s, p, i) matches Some(k) ==> i <= k && matches_at(s, p, k) && forall|j: int|
            i <= j < k ==> !matches_at(s, p, j),
        find_from(s, p, i) is None ==> forall|j: int| i <= j ==> !matches_at(s, p, j),
    decreases s.len() + 1 - i,
{
    if i < 0 || i + p.len() > s.len() {
    } else if s.subrange(i, i + p.len()) == p {
    } else {
        lemma_find_from_range(s, p, i + 1);
    }
}

pub fn find_at_from(v: &[char], p: &[char], start: usize) -> (r: Option<usize>)
    ensures
        match r {
            Some(k) => find_from(v@, p@, start as int) == Some(k as int),
            None => find_from(v@, p@, start as int) is None,
        },
{
    let mut i = start;
    loop
        invariant
            start <= i,
            find_from(v@, p@, start as int) == find_from(v@, p@, i as int),
        decreases v.len() + 1 - i,
    {
        if i > v.len() || p.len() > v.len() - i {
            return None;
        }
        if is_match_at(v, p, i) {
            return Some(i);
        }
        proof {
            if p@.len() == 0 {
                assert(v@.subrange(i as int, i as int) =~= p@);
            }
        }
        i = i + 1;
    }
}

pub fn find_chars(v: &[char], p: &[char]) -> (r: Option<usize>)
    ensures
        match r {
            Some(k) => find(v@, p@) == Some(k as int),
            None => find(v@, p@) is None,
        },
{
    find_at_from(v, p, 0)
}

pub fn find_str(v: &[char], p: &str) -> (r: Option<usize>)
    ensures
        match r {
            Some(k) => find(v@, p@) == Some(k as int),
            None => find(v@, p@) is None,
        },
{
    let pc = chars_of(p);
    find_chars(v, &pc)
}

pub fn contains_str(v: &[char], p: &str) -> (r: bool)
    ensures
        r == contains(v@, p@),
{
    find_str(v, p).is_some()
}

pub fn contains_chars(v: &[char], p: &[char]) -> (r: bool)
    ensures
        r == contains(v@, p@),
{
    find_chars(v, p).is_some()
}

/// Last index before `i` at which `c` occurs.
pub open spec fn rfind_before(s: Seq<char>, c: char, i: int) -> Option<int>
    decreases i,
{
    if i <= 0 {
        None
    } else if s[i - 1] == c {
        Some(i - 1)
    } else {
        rfind_before(s, c, i - 1)
    }
}

pub open spec fn rfind_char(s: Seq<char>, c: char) -> Option<int> {
    rfind_before(s, c, s.len() as int)
}

/// A backwards search finds the last occurrence before `i`, or reports that none is there.
pub proof fn lemma_rfind_before_range(s: Seq<char>, c: char, i: int)
    requires
        i <= s.len(),
    ensures
        rfind_before(s, c, i) matches Some(k) ==> 0 <= k < i && s[k] == c && forall|j: int|
            k < j < i ==> s[j] != c,
        rfind_before(s, c, i) is None ==> forall|j: int| 0 <= j < i ==> s[j] != c,
    decreases i,
{
    if i <= 0 {
    } else if s[i - 1] == c {
    } else {
        lemma_rfind_before_range(s, c, i - 1);
    }
}

pub fn rfind(v: &[char], c: char) -> (r: Option<usize>)
    ensures
        match r {
            Some(k) => rfind_char(v@, c) == Some(k as int),
            None => rfind_char(v@, c) is None,
        },
{
    let mut i = v.len();
    loop
        invariant
            i <= v.len(),
            rfind_char(v@, c) == rfind_before(v@, c, i as int),
        decreases i,
    {
        if i == 0 {
            return None;
        }
        if v[i - 1] == c {
            return Some(i - 1);
        }
        i = i - 1;
    }
}

pub open spec fn find_char(s: Seq<char>, c: char) -> Option<int> {
    find(s, seq![c])
}

pub fn find_ch(v: &[char], c: char) -> (r: Option<usize>)
    ensures
        match r {
            Some(k) => find_char(v@, c) == Some(k as int),
            None => find_char(v@, c) is None,
        },
{
    let mut p: Vec<char> = Vec::new();
    p.push(c);
    proof {
        assert(p@ =~= seq![c]);
    }
    find_chars(v, &p)
}

/// A character search finds the first occurrence, or reports that none is there.
pub proof fn lemma_find_char(s: Seq<char>, c: char)
    ensures
        find_char(s, c) matches Some(k) ==> 0 <= k < s.len() && s[k] == c && forall|j: int|
            0 <= j < k ==> s[j] != c,
        find_char(s, c) is None ==> forall|j: int| 0 <= j < s.len() ==> s[j] != c,
{
    lemma_find_from_range(s, seq![c], 0);
    if let Some(k) = find_char(s, c) {
        assert(s.subrange(k, k + 1)[0] == c);
        assert forall|j: int| 0 <= j < k implies s[j] != c by {
            if s[j] == c {
                assert(s.subrange(j, j + 1) =~= seq![c]);
                assert(matches_at(s, seq![c], j));
            }
        }
    } else {
        assert forall|j: int| 0 <= j < s.len() implies s[j] != c by {
            if s[j] == c {
                assert(s.subrange(j, j + 1) =~= seq![c]);
                assert(matches_at(s, seq![c], j));
            }
        }
    }
}

// ---------------------------------------------------------------------------
// Splitting at a pattern.
// ---------------------------------------------------------------------------

/// `str::split_once` with a string pattern.
pub open spec fn split_once(s: Seq<char>, p: Seq<char>) -> Option<(Seq<char>, Seq<char>)> {
    match find(s, p) {
        Some(i) => Some((s.take(i), s.skip(i + p.len()))),
        None => None,
    }
}

pub open spec fn split_once_char(s: Seq<char>, c: char) -> Option<(Seq<char>, Seq<char>)> {
    split_once(s, seq![c])
}

/// `str::rsplit_once` with a character pattern.
pub open spec fn rsplit_once_char(s: Seq<char>, c: char) -> Option<(Seq<char>, Seq<char>)> {
    match rfind_char(s, c) {
        Some(i) => Some((s.take(i), s.skip(i + 1))),
        None => None,
    }
}

pub fn split_once_chars(v: &[char], p: &[char]) -> (r: Option<(Vec<char>, Vec<char>)>)
    ensures
        match r {
            Some((a, b)) => split_once(v@, p@) == Some((a@, b@)),
            None => split_once(v@, p@) is None,
        },
{
    match find_chars(v, p) {
        Some(i) => {
            proof {
                lemma_find_from_range(v@, p@, 0);
                assert(matches_at(v@, p@, i as int));
                assert(i + p.len() <= v.len());
            }
            let end = i + p.len();
            let a = copy_range(v, 0, i);
            let b = copy_range(v, end, v.len());
            proof {
                assert(a@ =~= v@.take(i as int));
                assert(b@ =~= v@.skip(i + p@.len()));
            }
            Some((a, b))
        },
        None => None,
    }
}

pub fn split_once_str(v: &[char], p: &str) -> (r: Option<(Vec<char>, Vec<char>)>)
    ensures
        match r {
            Some((a, b)) => split_once(v@, p@) == Some((a@, b@)),
            None => split_once(v@, p@) is None,
        },
{
    let pc = chars_of(p);
    split_once_chars(v, &pc)
}

pub fn split_once_ch(v: &[char], c: char) -> (r: Option<(Vec<char>, Vec<char>)>)
    ensures
        match r {
            Some((a, b)) => split_once_char(v@, c) == Some((a@, b@)),
            None => split_once_char(v@, c) is None,
        },
{
    let mut p: Vec<char> = Vec::new();
    p.push(c);
    proof {
        assert(p@ =~= seq![c]);
    }
    split_once_chars(v, &p)
}

pub fn rsplit_once_ch(v: &[char], c: char) -> (r: Option<(Vec<char>, Vec<char>)>)
    ensures
        match r {
            Some((a, b)) => rsplit_once_char(v@, c) == Some((a@, b@)),
            None => rsplit_once_char(v@, c) is None,
        },
{
    match rfind(v, c) {
        Some(i) => {
            proof {
                lemma_rfind_before_range(v@, c, v@.len() as int);
                assert(i < v.len());
            }
            let a = copy_range(v, 0, i);
            let b = copy_range(v, i + 1, v.len());
            proof {
                assert(a@ =~= v@.take(i as int));
                assert(b@ =~= v@.skip(i + 1));
            }
            Some((a, b))
        },
        None => None,
    }
}

/// `str::split` with a non-empty string pattern: the pieces between the occurrences
/// of `p`, found from the left without overlapping.
pub open spec fn split_pat(s: Seq<char>, p: Seq<char>) -> Seq<Seq<char>>
    decreases s.len(),
{
    if p.len() == 0 {
        seq![s]
    } else {
        match split_once(s, p) {
            Some((a, b)) => {
                proof {
                    lemma_find_from_range(s, p, 0);
                }
                seq![a] + split_pat(b, p)
            },
            None => seq![s],
        }
    }
}

pub fn split_pat_chars(v: &[char], p: &str) -> (r: Vec<Vec<char>>)
    requires
        p@.len() > 0,
    ensures
        views(r@) == split_pat(v@, p@),
{
    let pc = chars_of(p);
    let mut r: Vec<Vec<char>> = Vec::new();
    let mut rest = copy_range(v, 0, v.len());
    proof {
        assert(rest@ =~= v@);
        assert(views(r@) =~= Seq::<Seq<char>>::empty());
    }
    loop
        invariant
            pc@ == p@,
            p@.len() > 0,
            views(r@) + split_pat(rest@, p@) == split_pat(v@, p@),
        decreases rest@.len(),
    {
        match split_once_chars(&rest, &pc) {
            Some((a, b)) => {
                proof {
                    lemma_find_from_range(rest@, p@, 0);
                    lemma_views_push(r@, a);
                    assert(views(r@).push(a@) + split_pat(b@, p@) =~= views(r@) + (seq![a@]
                        + split_pat(b@, p@)));
                }
                r.push(a);
                rest = b;
            },
            None => {
                proof {
                    lemma_views_push(r@, rest);
                    assert(views(r@).push(rest@) =~= views(r@) + seq![rest@]);
                }
                r.push(rest);
                return r;
            },
        }
    }
}

// ---------------------------------------------------------------------------
// Whitespace trimming.
// ---------------------------------------------------------------------------

pub open spec fn trim_start(s: Seq<char>) -> Seq<char>
    decreases s.len(),
{
    if s.len() > 0 && is_ws(s[0]) {
        trim_start(s.drop_first())
    } else {
        s
    }
}

pub open spec fn trim_end(s: Seq<char>) -> Seq<char>
    decreases s.len(),
{
    if s.len() > 0 && is_ws(s.last()) {
        trim_end(s.drop_last())
    } else {
        s
    }
}

/// `str::trim`.
pub open spec fn trim(s: Seq<char>) -> Seq<char> {
    trim_end(trim_start(s))
}

pub fn trim_start_chars(v: &[char]) -> (r: Vec<char>)
    ensures
        r@ == trim_start(v@),
{
    let mut i: usize = 0;
    proof {
        assert(v@.skip(0) =~= v@);
    }
    while i < v.len() && is_whitespace(v[i])
        invariant
            0 <= i <= v.len(),
            trim_start(v@) == trim_start(v@.skip(i as int)),
        decreases v.len() - i,
    {
        proof {
            assert(v@.skip(i as int).drop_first() =~= v@.skip(i + 1));
        }
        i = i + 1;
    }
    let r = copy_range(v, i, v.len());
    proof {
        assert(r@ =~= v@.skip(i as int));
    }
    r
}

pub fn trim_end_chars(v: &[char]) -> (r: Vec<char>)
    ensures
        r@ == trim_end(v@),
{
    let mut i: usize = v.len();
    proof {
        assert(v@.take(v@.len() as int) =~= v@);
    }
    while i > 0 && is_whitespace(v[i - 1])
        invariant
            0 <= i <= v.len(),
            trim_end(v@) == trim_end(v@.take(i as int)),
        decreases i,
    {
        proof {
            assert(v@.take(i as int).drop_last() =~= v@.take(i - 1));
        }
        i = i - 1;
    }
    let r = copy_range(v, 0, i);
    proof {
        assert(r@ =~= v@.take(i as int));
    }
    r
}

pub fn trim_chars(v: &[char]) -> (r: Vec<char>)
    ensures
        r@ == trim(v@),
{
    let a = trim_start_chars(v);
    trim_end_chars(&a)
}

// ---------------------------------------------------------------------------
// Splitting into pieces.
// ---------------------------------------------------------------------------

/// A piece separator: one given character, or any whitespace character.
pub enum Sep {
    Char(char),
    Ws,
}

pub open spec fn is_sep(sep: Sep, x: char) -> bool {
    match sep {
        Sep::Char(c) => x == c,
        Sep::Ws => is_ws(x),
    }
}

/// `str::split` with a character or a whitespace predicate: the pieces between
/// separators, always at least one.
pub open spec fn split_by(s: Seq<char>, sep: Sep) -> Seq<Seq<char>>
    decreases s.len(),
{
    if s.len() == 0 {
        seq![Seq::<char>::empty()]
    } else {
        let p = split_by(s.drop_last(), sep);
        if is_sep(sep, s.last()) {
            p.push(Seq::<char>::empty())
        } else {
            p.update(p.len() - 1, p.last().push(s.last()))
        }
    }
}

pub open spec fn split(s: Seq<char>, c: char) -> Seq<Seq<char>> {
    split_by(s, Sep::Char(c))
}

/// Splitting always yields at least one piece.
pub proof fn lemma_split_by_len(s: Seq<char>, sep: Sep)
    ensures
        split_by(s, sep).len() >= 1,
    decreases s.len(),
{
    if s.len() > 0 {
        lemma_split_by_len(s.drop_last(), sep);
    }
}

fn sep_matches(sep: &Sep, x: char) -> (r: bool)
    ensures
        r == is_sep(*sep, x),
{
    match sep {
        Sep::Char(c) => x == *c,
        Sep::Ws => is_whitespace(x),
    }
}

pub fn split_by_chars(v: &[char], sep: Sep) -> (r: Vec<Vec<char>>)
    ensures
        views(r@) == split_by(v@, sep),
{
    let mut r: Vec<Vec<char>> = Vec::new();
    let mut cur: Vec<char> = Vec::new();
    let mut i: usize = 0;
    proof {
        assert(v@.take(0) =~= Seq::<char>::empty());
        assert(views(r@).push(cur@) =~= seq![Seq::<char>::empty()]);
    }
    while i < v.len()
        invariant
            0 <= i <= v.len(),
            views(r@).push(cur@) == split_by(v@.take(i as int), sep),
        decreases v.len() - i,
    {
        proof {
            assert(v@.take(i + 1).drop_last() =~= v@.take(i as int));
            lemma_views_push(r@, cur);
        }
        let ch = v[i];
        if sep_matches(&sep, ch) {
            r.push(cur);
            cur = Vec::new();
            proof {
                assert(views(r@).push(cur@) =~= split_by(v@.take(i as int), sep).push(
                    Seq::<char>::empty(),
                ));
            }
        } else {
            cur.push(ch);
            proof {
                let p = split_by(v@.take(i as int), sep);
                assert(views(r@).push(cur@) =~= p.update(p.len() - 1, p.last().push(ch)));
            }
        }
        i = i + 1;
    }
    let ghost before = r@;
    r.push(cur);
    proof {
        lemma_views_push(before, cur);
        assert(v@.take(v@.len() as int) =~= v@);
    }
    r
}

pub fn split_ch(v: &[char], c: char) -> (r: Vec<Vec<char>>)
    ensures
        views(r@) == split(v@, c),
{
    split_by_chars(v, Sep::Char(c))
}

/// The pieces separated by whitespace, empty pieces dropped (`split_whitespace`).
pub open spec fn split_ws(s: Seq<char>) -> Seq<Seq<char>> {
    nonempty(split_by(s, Sep::Ws))
}

pub open spec fn nonempty(p: Seq<Seq<char>>) -> Seq<Seq<char>>
    decreases p.len(),
{
    if p.len() == 0 {
        p
    } else {
        let r = nonempty(p.drop_last());
        if p.last().len() > 0 {
            r.push(p.last())
        } else {
            r
        }
    }
}

pub fn drop_empty(p: Vec<Vec<char>>) -> (r: Vec<Vec<char>>)
    ensures
        views(r@) == nonempty(views(p@)),
{
    let mut r: Vec<Vec<char>> = Vec::new();
    let mut i: usize = 0;
    let n = p.len();
    proof {
        assert(views(p@).take(0) =~= Seq::<Seq<char>>::empty());
    }
    while i < n
        invariant
            0 <= i <= n,
            n == p@.len(),
            views(r@) == nonempty(views(p@).take(i as int)),
        decreases n - i,
    {
        proof {
            assert(views(p@).take(i + 1).drop_last() =~= views(p@).take(i as int));
            assert(views(p@).take(i + 1).last() == p@[i as int]@);
        }
        if p[i].len() > 0 {
            let piece = copy_range(&p[i], 0, p[i].len());
            proof {
                assert(piece@ =~= p@[i as int]@);
                lemma_views_push(r@, piece);
            }
            r.push(piece);
        }
        i = i + 1;
    }
    proof {
        assert(views(p@).take(n as int) =~= views(p@));
    }
    r
}

pub fn split_ws_chars(v: &[char]) -> (r: Vec<Vec<char>>)
    ensures
        views(r@) == split_ws(v@),
{
    let raw = split_by_chars(v, Sep::Ws);
    drop_empty(raw)
}

// ---------------------------------------------------------------------------
// Lines.
// ---------------------------------------------------------------------------

pub open spec fn strip_cr(l: Seq<char>) -> Seq<char> {
    if l.len() > 0 && l.last() == '\r' {
        l.drop_last()
    } else {
        l
    }
}

pub open spec fn strip_crs(p: Seq<Seq<char>>) -> Seq<Seq<char>>
    decreases p.len(),
{
    if p.len() == 0 {
        p
    } else {
        strip_crs(p.drop_last()).push(strip_cr(p.last()))
    }
}

/// `str::lines`: pieces ended by `\n` (with a `\r` before it removed); a final
/// piece without `\n` is kept as it is when it is not empty.
pub open spec fn lines(s: Seq<char>) -> Seq<Seq<char>> {
    let p = split(s, '\n');
    let k = p.len() - 1;
    let body = strip_crs(p.take(k));
    if p[k].len() == 0 {
        body
    } else {
        body.push(p[k])
    }
}

pub fn strip_cr_chars(v: Vec<char>) -> (r: Vec<char>)
    ensures
        r@ == strip_cr(v@),
{
    let mut v = v;
    if v.len() > 0 && v[v.len() - 1] == '\r' {
        v.pop();
    }
    v
}

pub fn lines_of(v: &[char]) -> (r: Vec<Vec<char>>)
    ensures
        views(r@) == lines(v@),
{
    let pieces = split_ch(v, '\n');
    proof {
        lemma_split_by_len(v@, Sep::Char('\n'));
    }
    let n = pieces.len();
    let k = n - 1;
    let mut r: Vec<Vec<char>> = Vec::new();
    let mut i: usize = 0;
    let ghost p = split(v@, '\n');
    proof {
        assert(p.take(0) =~= Seq::<Seq<char>>::empty());
        assert(p.len() == n);
    }
    while i < k
        invariant
            0 <= i <= k,
            k == n - 1,
            n == pieces@.len(),
            views(pieces@) == p,
            views(r@) == strip_crs(p.take(i as int)),
        decreases k - i,
    {
        let piece0 = copy_range(&pieces[i], 0, pieces[i].len());
        proof {
            assert(piece0@ =~= pieces@[i as int]@);
        }
        let piece = strip_cr_chars(piece0);
        proof {
            assert(pieces@[i as int]@ == p[i as int]);
            lemma_views_push(r@, piece);
            assert(p.take(i + 1).drop_last() =~= p.take(i as int));
            assert(p.take(i + 1).last() == p[i as int]);
        }
        r.push(piece);
        i = i + 1;
    }
    if pieces[k].len() > 0 {
        let last = copy_range(&pieces[k], 0, pieces[k].len());
        proof {
            assert(last@ =~= pieces@[k as int]@);
            assert(pieces@[k as int]@ == p[k as int]);
            lemma_views_push(r@, last);
        }
        r.push(last);
    } else {
        proof {
            assert(pieces@[k as int]@ == p[k as int]);
        }
    }
    r
}

/// `parts.join(sep)`.
pub open spec fn join(parts: Seq<Seq<char>>, sep: Seq<char>) -> Seq<char>
    decreases parts.len(),
{
    if parts.len() == 0 {
        Seq::<char>::empty()
    } else if parts.len() == 1 {
        parts[0]
    } else {
        join(parts.drop_last(), sep) + sep + parts.last()
    }
}

pub fn join_chars(parts: &Vec<Vec<char>>, sep: &str) -> (r: Vec<char>)
    ensures
        r@ == join(views(parts@), sep@),
{
    let mut r: Vec<char> = Vec::new();
    let mut i: usize = 0;
    proof {
        assert(views(parts@).take(0) =~= Seq::<Seq<char>>::empty());
    }
    while i < parts.len()
        invariant
            0 <= i <= parts.len(),
            r@ == join(views(parts@).take(i as int), sep@),
        decreases parts.len() - i,
    {
        proof {
            assert(views(parts@).take(i + 1).drop_last() =~= views(parts@).take(i as int));
            assert(views(parts@).take(i + 1).last() == parts@[i as int]@);
        }
        if i > 0 {
            push_str(&mut r, sep);
        }
        push_all(&mut r, &parts[i]);
        proof {
            if i == 0 {
                assert(views(parts@).take(1)[0] == parts@[0]@);
                assert(r@ =~= parts@[0]@);
            }
        }
        i = i + 1;
    }
    proof {
        assert(views(parts@).take(parts@.len() as int) =~= views(parts@));
    }
    r
}

// ---------------------------------------------------------------------------
// Case mapping.
// ---------------------------------------------------------------------------

pub open spec fn ascii_lower_char(c: char) -> char {
    if 'A' <= c && c <= 'Z' {
        ((c as u32) + 32) as char
    } else {
        c
    }
}

/// `str::to_ascii_lowercase`.
pub open spec fn ascii_lower(s: Seq<char>) -> Seq<char> {
    s.map_values(|c: char| ascii_lower_char(c))
}

pub fn ascii_lower_chars(v: &[char]) -> (r: Vec<char>)
    ensures
        r@ == ascii_lower(v@),
{
    let mut r: Vec<char> = Vec::new();
    let mut i: usize = 0;
    while i < v.len()
        invariant
            0 <= i <= v.len(),
            r@ == ascii_lower(v@.take(i as int)),
        decreases v.len() - i,
    {
        let c = v[i];
        let l = if 'A' <= c && c <= 'Z' {
            let code: u32 = (c as u32) + 32;
            proof {
                assert(0x61 <= code <= 0x7a);
            }
            char_from_ascii(code)
        } else {
            c
        };
        r.push(l);
        proof {
            assert(ascii_lower(v@.take(i + 1)) =~= ascii_lower(v@.take(i as int)).push(
                ascii_lower_char(c),
            ));
        }
        i = i + 1;
    }
    proof {
        assert(v@.take(v@.len() as int) =~= v@);
    }
    r
}

fn char_from_ascii(code: u32) -> (c: char)
    requires
        code < 0x80,
    ensures
        c == code as char,
{
    let b: u8 = code as u8;
    b as char
}

/// Unicode lowercase mapping of a whole string (`str::to_lowercase`).
pub uninterp spec fn unicode_lower(s: Seq<char>) -> Seq<char>;

/// `str::to_lowercase`: the string with every character mapped by its Unicode
/// lowercase mapping; claimed to be a function of the input alone.
#[verifier::external_body]
pub(crate) fn to_lowercase(s: &[char]) -> (r: Vec<char>)
    ensures
        r@ == unicode_lower(s@),
{
    let t: String = s.iter().collect();
    t.to_lowercase().chars().collect()
}

// ---------------------------------------------------------------------------
// Decimal numbers.
// ---------------------------------------------------------------------------

pub open spec fn digit_value(c: char) -> int {
    (c as int) - ('0' as int)
}

pub open spec fn digits_value(s: Seq<char>) -> int
    decreases s.len(),
{
    if s.len() == 0 {
        0
    } else {
        digits_value(s.drop_last()) * 10 + digit_value(s.last())
    }
}

pub open spec fn all_digits(s: Seq<char>) -> bool {
    forall|i: int| 0 <= i < s.len() ==> is_digit(#[trigger] s[i])
}

/// `<u64 as FromStr>::from_str`: an optional `+`, then one or more ASCII digits
/// whose value fits in 64 bits.
pub open spec fn parse_u64(s: Seq<char>) -> Option<u64> {
    let d = if s.len() > 0 && s[0] == '+' {
        s.drop_first()
    } else {
        s
    };
    if d.len() > 0 && all_digits(d) && digits_value(d) <= u64::MAX {
        Some(digits_value(d) as u64)
    } else {
        None
    }
}

/// A prefix of a digit string has a value no larger than the whole.
pub proof fn lemma_digits_value_grows(s: Seq<char>, k: int)
    requires
        all_digits(s),
        0 <= k <= s.len(),
    ensures
        0 <= digits_value(s.take(k)) <= digits_value(s),
    decreases s.len(),
{
    if k == s.len() {
        assert(s.take(k) =~= s);
        lemma_digits_value_nonneg(s);
    } else {
        assert(all_digits(s.drop_last()));
        assert(s.drop_last().take(k) =~= s.take(k));
        lemma_digits_value_grows(s.drop_last(), k);
        lemma_digits_value_nonneg(s.drop_last());
        assert(is_digit(s[s.len() - 1]));
    }
}

/// A digit string has a value of at least zero.
pub proof fn lemma_digits_value_nonneg(s: Seq<char>)
    requires
        all_digits(s),
    ensures
        0 <= digits_value(s),
    decreases s.len(),
{
    if s.len() > 0 {
        assert(all_digits(s.drop_last()));
        lemma_digits_value_nonneg(s.drop_last());
        assert(is_digit(s[s.len() - 1]));
    }
}

pub fn parse_u64_chars(v: &[char]) -> (r: Option<u64>)
    ensures
        r == parse_u64(v@),
{
    let start: usize = if v.len() > 0 && v[0] == '+' {
        1
    } else {
        0
    };
    let ghost d = if v@.len() > 0 && v@[0] == '+' {
        v@.drop_first()
    } else {
        v@
    };
    proof {
        assert(d =~= v@.skip(start as int));
    }
    if start >= v.len() {
        return None;
    }
    let mut value: u64 = 0;
    let mut i: usize = start;
    proof {
        assert(d.take(0) =~= Seq::<char>::empty());
    }
    while i < v.len()
        invariant
            start <= i <= v.len(),
            d == v@.skip(start as int),
            d == (if v@.len() > 0 && v@[0] == '+' {
                v@.drop_first()
            } else {
                v@
            }),
            all_digits(d.take(i - start)),
            value == digits_value(d.take(i - start)),
        decreases v.len() - i,
    {
        let c = v[i];
        proof {
            assert(d[i - start] == c);
            assert(d.take(i - start + 1).drop_last() =~= d.take(i - start));
        }
        if !('0' <= c && c <= '9') {
            proof {
                assert(!all_digits(d));
            }
            return None;
        }
        let dv: u32 = (c as u32) - ('0' as u32);
        if value > (u64::MAX - (dv as u64)) / 10 {
            proof {
                assert(all_digits(d.take(i - start + 1)));
                assert(digits_value(d.take(i - start + 1)) > u64::MAX);
                if all_digits(d) {
                    assert(d.take(i - start + 1) =~= d.take(i - start + 1));
                    lemma_digits_value_grows(d, i - start + 1);
                }
            }
            return None;
        }
        value = value * 10 + (dv as u64);
        proof {
            assert(all_digits(d.take(i - start + 1)));
        }
        i = i + 1;
    }
    proof {
        assert(d.take(i - start) =~= d);
    }
    Some(value)
}

pub open spec fn digit_char(n: int) -> char {
    ((n + ('0' as int)) as u32) as char
}

/// The decimal writing of `n`, as `u64`'s `Display` prints it.
pub open spec fn decimal(n: nat) -> Seq<char>
    decreases n,
{
    if n < 10 {
        seq![digit_char(n as int)]
    } else {
        decimal(n / 10).push(digit_char((n % 10) as int))
    }
}

pub fn decimal_chars(n: u64) -> (r: Vec<char>)
    ensures
        r@ == decimal(n as nat),
    decreases n,
{
    let d: u8 = (n % 10) as u8;
    let c = ('0' as u8 + d) as char;
    proof {
        assert(c == digit_char((n % 10) as int));
    }
    if n < 10 {
        let mut r: Vec<char> = Vec::new();
        r.push(c);
        proof {
            assert(r@ =~= seq![c]);
        }
        r
    } else {
        let mut r = decimal_chars(n / 10);
        r.push(c);
        r
    }
}

pub fn decimal_string(n: u64) -> (s: String)
    ensures
        s@ == decimal(n as nat),
{
    let v = decimal_chars(n);
    string_of(&v)
}

/// The `Some` results of `f` over `s`, in order (`filter_map`).
pub open spec fn filter_map<A, B>(s: Seq<A>, f: spec_fn(A) -> Option<B>) -> Seq<B>
    decreases s.len(),
{
    if s.len() == 0 {
        Seq::<B>::empty()
    } else {
        let r = filter_map(s.drop_last(), f);
        match f(s.last()) {
            Some(b) => r.push(b),
            None => r,
        }
    }
}


/// A piece placed in a text occurs in it: `p` occurs in `a + p + b`.
pub proof fn lemma_contains_middle(a: Seq<char>, p: Seq<char>, b: Seq<char>)
    ensures
        contains(a + p + b, p),
{
    let s = a + p + b;
    assert(s.subrange(a.len() as int, (a.len() + p.len()) as int) =~= p);
    assert(matches_at(s, p, a.len() as int));
    lemma_find_from_range(s, p, 0);
}

/// Occurring in is transitive: a piece of a piece of `s` occurs in `s`.
pub proof fn lemma_contains_trans(s: Seq<char>, q: Seq<char>, p: Seq<char>)
    requires
        contains(s, q),
        contains(q, p),
    ensures
        contains(s, p),
{
    lemma_find_from_range(s, q, 0);
    lemma_find_from_range(q, p, 0);
    let k = find(s, q)->0;
    let j = find(q, p)->0;
    assert(s.subrange(k, k + q.len()) == q);
    assert(q.subrange(j, j + p.len()) == p);
    assert(s.subrange(k + j, k + j + p.len()) =~= q.subrange(j, j + p.len()));
    assert(matches_at(s, p, k + j));
    lemma_find_from_range(s, p, 0);
}

/// Every part occurs in the parts joined by a separator.
pub proof fn lemma_join_contains(parts: Seq<Seq<char>>, sep: Seq<char>, k: int)
    requires
        0 <= k < parts.len(),
    ensures
        contains(join(parts, sep), parts[k]),
    decreases parts.len(),
{
    let e = Seq::<char>::empty();
    if parts.len() == 1 {
        assert(e + parts[0] + e =~= parts[0]);
        lemma_contains_middle(e, parts[0], e);
    } else {
        let front = join(parts.drop_last(), sep);
        let whole = join(parts, sep);
        assert(whole == front + sep + parts.last());
        if k == parts.len() - 1 {
            assert(whole + e =~= whole);
            lemma_contains_middle(front + sep, parts.last(), e);
        } else {
            lemma_join_contains(parts.drop_last(), sep, k);
            assert(parts.drop_last()[k] == parts[k]);
            assert(e + front + (sep + parts.last()) =~= whole);
            lemma_contains_middle(e, front, sep + parts.last());
            lemma_contains_trans(whole, front, parts[k]);
        }
    }
}

/// Every value that `f` gives for an element is among the results of `filter_map`.
pub proof fn lemma_filter_map_contains<A, B>(s: Seq<A>, f: spec_fn(A) -> Option<B>, i: int)
    requires
        0 <= i < s.len(),
        f(s[i]) is Some,
    ensures
        filter_map(s, f).contains(f(s[i])->0),
    decreases s.len(),
{
    let r = filter_map(s.drop_last(), f);
    if i == s.len() - 1 {
        let x = f(s[i])->0;
        assert(filter_map(s, f) == r.push(x));
        assert(r.push(x)[r.len() as int] == x);
    } else {
        lemma_filter_map_contains(s.drop_last(), f, i);
        assert(s.drop_last()[i] == s[i]);
        let k = choose|k: int| 0 <= k < r.len() && r[k] == f(s[i])->0;
        match f(s.last()) {
            Some(b) => {
                assert(r.push(b)[k] == r[k]);
            },
            None => {},
        }
    }
}

/// What occurs in a text occurs in any longer text that starts with it.
pub proof fn lemma_contains_append(s: Seq<char>, r: Seq<char>, p: Seq<char>)
    requires
        contains(s, p),
    ensures
        contains(s + r, p),
{
    lemma_find_from_range(s, p, 0);
    let k = find(s, p)->0;
    assert((s + r).subrange(k, k + p.len()) =~= s.subrange(k, k + p.len()));
    assert(matches_at(s + r, p, k));
    lemma_find_from_range(s + r, p, 0);
}

/// The last three pieces of a text occur in it together.
pub proof fn lemma_contains_last3(x: Seq<char>, a: Seq<char>, b: Seq<char>, c: Seq<char>)
    ensures
        contains(x + a + b + c, a + b + c),
{
    let e = Seq::<char>::empty();
    assert(x + a + b + c =~= x + (a + b + c) + e);
    lemma_contains_middle(x, a + b + c, e);
}

/// The last two pieces of a text occur in it together.
pub proof fn lemma_contains_last2(x: Seq<char>, a: Seq<char>, b: Seq<char>)
    ensures
        contains(x + a + b, a + b),
{
    let e = Seq::<char>::empty();
    assert(x + a + b =~= x + (a + b) + e);
    lemma_contains_middle(x, a + b, e);
}

} // verus!
