//! The layout of the confirmation dialog: how many body lines go to the items and
//! how many to the removal preview, and how a long line is wrapped to the width of
//! the dialog.
use vstd::prelude::*;

use unicode_width::UnicodeWidthChar;

verus! {

/// How the body lines of the dialog are shared out.
#[derive(Debug, PartialEq, Eq, Structural)]
pub struct Budget {
    pub items: usize,
    pub preview: usize,
    pub spaced: bool,
}

pub open spec fn min_int(a: int, b: int) -> int {
    if a <= b {
        a
    } else {
        b
    }
}

pub open spec fn max_int(a: int, b: int) -> int {
    if a >= b {
        a
    } else {
        b
    }
}

/// The budget for `body` lines, `items` item lines and `preview` preview lines: a
/// blank line before the preview where there is room for it and two preview lines;
/// the items get up to half of the rest and at least one line; the preview gets what
/// is left but at least two lines (never more than it has); the items then get the
/// remainder, at least one line.
pub open spec fn line_budget_spec(body: int, items: int, preview: int) -> (int, int, bool) {
    let spaced = preview > 0 && body >= 2 + min_int(preview, 2);
    let room = body - (if spaced {
        1int
    } else {
        0int
    });
    let share = max_int(min_int(items, room / 2), 1);
    let p = min_int(preview, max_int(max_int(room - share, 0), 2));
    let i = max_int(max_int(room - p, 0), 1);
    (i, p, spaced)
}

pub fn line_budget(body: usize, items: usize, preview: usize) -> (r: Budget)
    ensures
        line_budget_spec(body as int, items as int, preview as int) == (
            r.items as int,
            r.preview as int,
            r.spaced,
        ),
{
    let two_or_less = if preview < 2 {
        preview
    } else {
        2
    };
    let spaced = preview > 0 && body >= 2 + two_or_less;
    let room = if spaced {
        body - 1
    } else {
        body
    };
    let half = room / 2;
    let share0 = if items < half {
        items
    } else {
        half
    };
    let share = if share0 < 1 {
        1
    } else {
        share0
    };
    let left = if room >= share {
        room - share
    } else {
        0
    };
    let floor = if left < 2 {
        2
    } else {
        left
    };
    let p = if preview < floor {
        preview
    } else {
        floor
    };
    let rest = if room >= p {
        room - p
    } else {
        0
    };
    let i = if rest < 1 {
        1
    } else {
        rest
    };
    Budget { items: i, preview: p, spaced }
}

/// The budget always keeps a line for the items, never gives the preview more lines
/// than it has, keeps two preview lines (a header and an entry) wherever the preview
/// has two, and from three body lines up uses exactly the body.
pub proof fn lemma_line_budget(body: nat, items: nat, preview: nat)
    ensures
        ({
            let (i, p, spaced) = line_budget_spec(body as int, items as int, preview as int);
            &&& i >= 1
            &&& p <= preview
            &&& preview >= 2 ==> p >= 2
            &&& body >= 3 ==> i + p + (if spaced {
                1int
            } else {
                0int
            }) == body
        }),
{
}

// ---------------------------------------------------------------------------
// Wrapping.
// ---------------------------------------------------------------------------

/// The number of columns a character takes on a terminal (`None` for a control
/// character), as the Unicode width tables have it.
pub uninterp spec fn display_width(c: char) -> Option<usize>;

/// `UnicodeWidthChar::width` of unicode-width: the displayed width of a character,
/// a function of the character alone; printable ASCII takes one column and the
/// C0 and C1 control characters have no width.
#[verifier::external_body]
fn char_width(c: char) -> (r: Option<usize>)
    ensures
        r == display_width(c),
        (' ' <= c && c <= '~') ==> r == Some(1usize),
        (c < ' ' || ('\u{7f}' <= c && c < '\u{a0}')) ==> r is None,
{
    c.width()
}

/// The columns a character counts for when wrapping: none for a control character.
pub open spec fn columns(c: char) -> int {
    match display_width(c) {
        Some(w) => w as int,
        None => 0,
    }
}

/// The rows finished so far, the row being filled and its width, after the given
/// characters.
pub open spec fn wrap_state(s: Seq<char>, width: int) -> (Seq<Seq<char>>, Seq<char>, int)
    decreases s.len(),
{
    if s.len() == 0 {
        (Seq::<Seq<char>>::empty(), Seq::<char>::empty(), 0)
    } else {
        let (rows, row, row_width) = wrap_state(s.drop_last(), width);
        let c = s.last();
        if row_width + columns(c) > width && row.len() > 0 {
            (rows.push(row), seq![c], columns(c))
        } else {
            (rows, row.push(c), row_width + columns(c))
        }
    }
}

/// The text cut into rows of at most `width` columns; a character wider than the
/// width gets a row of its own, and the last row may be empty only if the text is.
pub open spec fn wrap_spec(s: Seq<char>, width: int) -> Seq<Seq<char>> {
    wrap_state(s, width).0.push(wrap_state(s, width).1)
}

/// All the rows one after the other.
pub open spec fn concat(rows: Seq<Seq<char>>) -> Seq<char>
    decreases rows.len(),
{
    if rows.len() == 0 {
        Seq::<char>::empty()
    } else {
        concat(rows.drop_last()) + rows.last()
    }
}

proof fn lemma_wrap_state(s: Seq<char>, width: int)
    ensures
        concat(wrap_state(s, width).0) + wrap_state(s, width).1 == s,
        wrap_state(s, width).1.len() == 0 ==> wrap_state(s, width).2 == 0,
        wrap_state(s, width).2 >= 0,
    decreases s.len(),
{
    if s.len() > 0 {
        lemma_wrap_state(s.drop_last(), width);
        let (rows, row, row_width) = wrap_state(s.drop_last(), width);
        let c = s.last();
        if row_width + columns(c) > width && row.len() > 0 {
            assert(rows.push(row).drop_last() =~= rows);
            assert(concat(rows.push(row)) + seq![c] =~= s);
        } else {
            assert(concat(rows) + row == s.drop_last());
            assert(concat(rows) + row.push(c) =~= (concat(rows) + row).push(c));
            assert(s.drop_last().push(c) =~= s);
        }
    }
}

/// Wrapping loses nothing: the rows, put together again, give back the text.
pub proof fn lemma_wrap_keeps_text(s: Seq<char>, width: int)
    ensures
        concat(wrap_spec(s, width)) == s,
{
    lemma_wrap_state(s, width);
    assert(wrap_spec(s, width).drop_last() =~= wrap_state(s, width).0);
}

pub fn wrap_chars(text: &str, width: usize) -> (r: Vec<String>)
    ensures
        r@.map_values(|x: String| x@) == wrap_spec(text@, width as int),
{
    let v = crate::text::chars_of(text);
    let mut rows: Vec<Vec<char>> = Vec::new();
    let mut row: Vec<char> = Vec::new();
    let mut row_width: usize = 0;
    let mut i: usize = 0;
    proof {
        assert(v@.take(0) =~= Seq::<char>::empty());
    }
    while i < v.len()
        invariant
            i <= v.len(),
            v@ == text@,
            wrap_state(v@.take(i as int), width as int) == (
                crate::text::views(rows@),
                row@,
                row_width as int,
            ),
            row@.len() == 0 ==> row_width == 0,
        decreases v.len() - i,
    {
        let c = v[i];
        proof {
            assert(v@.take(i + 1).drop_last() =~= v@.take(i as int));
            assert(v@.take(i + 1).last() == c);
        }
        let w: usize = match char_width(c) {
            Some(w) => w,
            None => 0,
        };
        let overflows = row_width > width || w > width - row_width;
        if overflows && row.len() > 0 {
            proof {
                crate::text::lemma_views_push(rows@, row);
            }
            rows.push(row);
            row = Vec::new();
            row.push(c);
            row_width = w;
            proof {
                assert(row@ =~= seq![c]);
            }
        } else {
            row.push(c);
            row_width = row_width + w;
        }
        i = i + 1;
    }
    proof {
        assert(v@.take(v@.len() as int) =~= v@);
        crate::text::lemma_views_push(rows@, row);
    }
    rows.push(row);
    let mut out: Vec<String> = Vec::new();
    let mut k: usize = 0;
    while k < rows.len()
        invariant
            k <= rows.len(),
            out@.map_values(|x: String| x@) == crate::text::views(rows@).take(k as int),
        decreases rows.len() - k,
    {
        let s = crate::text::string_of(&rows[k]);
        proof {
            assert(crate::text::views(rows@)[k as int] == rows@[k as int]@);
            assert(s@ == crate::text::views(rows@)[k as int]);
            assert(crate::text::views(rows@).take(k + 1) =~= crate::text::views(rows@).take(
                k as int,
            ).push(s@));
            assert(out@.push(s).map_values(|x: String| x@) =~= out@.map_values(|x: String| x@).push(
                s@,
            ));
        }
        out.push(s);
        k = k + 1;
    }
    proof {
        assert(crate::text::views(rows@).take(rows@.len() as int) =~= crate::text::views(rows@));
    }
    out
}

/// How many of `total` lines a block of at most `max` lines keeps, and the count of
/// the rest that a closing "more" line reports (none where all fit, or where there is
/// no room at all).
pub open spec fn capped_spec(total: int, max: int) -> (int, Option<int>) {
    if total <= max {
        (total, None)
    } else {
        let keep = if max >= 1 {
            max - 1
        } else {
            0
        };
        (keep, if max > 0 {
            Some(total - keep)
        } else {
            None
        })
    }
}

/// Caps a block of lines at `max`: where they do not fit, the first `max - 1` stay
/// and the number of the others is returned for a closing line.
pub fn capped<T>(lines: Vec<T>, max: usize) -> (r: (Vec<T>, Option<usize>))
    ensures
        ({
            let (keep, more) = capped_spec(lines@.len() as int, max as int);
            &&& r.0@ == lines@.take(keep)
            &&& match more {
                Some(m) => r.1 == Some(m as usize),
                None => r.1 is None,
            }
        }),
{
    let total = lines.len();
    if total <= max {
        proof {
            assert(lines@.take(total as int) =~= lines@);
        }
        return (lines, None);
    }
    let keep = if max >= 1 {
        max - 1
    } else {
        0
    };
    let mut out: Vec<T> = lines;
    out.truncate(keep);
    let more = if max > 0 {
        Some(total - keep)
    } else {
        None
    };
    (out, more)
}

} // verus!
