//! The snippet shown for a search hit: the text around the first place where
//! a query term occurs, compared without regard to case.
use vstd::prelude::*;
use crate::models::strings_view;
use crate::text::{chars_of, lower_all, lowercase_chars, string_from_chars, sub_chars};

verus! {

broadcast use vstd::string::group_string_axioms;

/// How many characters the snippet shows on each side of the match.
pub const SNIPPET_WINDOW: usize = 30;

/// The first position at or after `i` where `needle` occurs in `hay`.
pub open spec fn first_match_from(hay: Seq<char>, needle: Seq<char>, i: int) -> Option<int>
    decreases hay.len() + 1 - i,
{
    if i < 0 || i + needle.len() > hay.len() {
        None
    } else if hay.subrange(i, i + needle.len()) == needle {
        Some(i)
    } else {
        first_match_from(hay, needle, i + 1)
    }
}

/// The lower-cased terms that are not empty, in order.
pub open spec fn lowered_terms(terms: Seq<Seq<char>>) -> Seq<Seq<char>>
    decreases terms.len(),
{
    if terms.len() == 0 {
        Seq::empty()
    } else {
        let prev = lowered_terms(terms.drop_last());
        let l = lower_all(terms.last());
        if l.len() > 0 {
            prev.push(l)
        } else {
            prev
        }
    }
}

/// The earliest place where one of `needles` occurs in `hay`, as (position,
/// needle length); at equal positions the needle that comes first wins.
pub open spec fn best_match(hay: Seq<char>, needles: Seq<Seq<char>>) -> Option<(int, int)>
    decreases needles.len(),
{
    if needles.len() == 0 {
        None
    } else {
        let prev = best_match(hay, needles.drop_last());
        let n = needles.last();
        match (prev, first_match_from(hay, n, 0)) {
            (None, None) => None,
            (None, Some(p)) => Some((p, n.len() as int)),
            (Some(b), None) => Some(b),
            (Some(b), Some(p)) => if p < b.0 {
                Some((p, n.len() as int))
            } else {
                Some(b)
            },
        }
    }
}

/// Where the snippet around a match at `center` starts.
pub open spec fn window_start(center: int) -> int {
    if center >= SNIPPET_WINDOW {
        center - SNIPPET_WINDOW
    } else {
        0
    }
}

/// Where the snippet around a match at `center` of length `len` ends, in a
/// text of `total` characters.
pub open spec fn window_end(total: int, center: int, len: int) -> int {
    if total < center + len + SNIPPET_WINDOW {
        total
    } else {
        center + len + SNIPPET_WINDOW
    }
}

/// The first `2 * SNIPPET_WINDOW` characters of `content`.
pub open spec fn snippet_head(content: Seq<char>) -> Seq<char> {
    if content.len() < 2 * SNIPPET_WINDOW {
        content
    } else {
        content.take(2 * SNIPPET_WINDOW)
    }
}

/// The text of `content` from `start` to `end`, with `...` before it when it
/// does not start at the beginning and after it when it does not reach the end.
pub open spec fn windowed(content: Seq<char>, start: int, end: int) -> Seq<char> {
    (if start > 0 { "..."@ } else { Seq::empty() }) + content.subrange(start, end) + (if end < content.len() {
        "..."@
    } else {
        Seq::empty()
    })
}

/// The snippet for a match found in the lower-cased text (or none found).
pub open spec fn snippet_for(content: Seq<char>, found: Option<(int, int)>) -> Seq<char> {
    match found {
        None => snippet_head(content),
        Some((c, l)) => windowed(content, window_start(c), window_end(content.len() as int, c, l)),
    }
}

/// The snippet of `content` for `terms`, or `None` where the match found in
/// the lower-cased text lies so far beyond the end of `content` (lower-casing
/// can lengthen a text) that no window of `content` can be cut around it.
pub open spec fn snippet_of(content: Seq<char>, terms: Seq<Seq<char>>) -> Option<Seq<char>> {
    let found = best_match(lower_all(content), lowered_terms(terms));
    match found {
        Some((c, l)) => if window_start(c) > content.len() {
            None
        } else {
            Some(snippet_for(content, found))
        },
        None => Some(snippet_for(content, found)),
    }
}

/// The first position at or after `i` where `needle` occurs in `hay`.
pub fn find_first(hay: &Vec<char>, needle: &Vec<char>) -> (r: Option<usize>)
    requires
        needle@.len() > 0,
    ensures
        match r {
            Some(p) => first_match_from(hay@, needle@, 0) == Some(p as int) && p + needle@.len() <= hay@.len(),
            None => first_match_from(hay@, needle@, 0) is None,
        },
{
    if needle.len() > hay.len() {
        return None;
    }
    let n = hay.len();
    let last = n - needle.len();
    let mut i: usize = 0;
    while i <= last
        invariant
            n == hay@.len(),
            last + needle@.len() == hay@.len(),
            needle@.len() > 0,
            i <= last + 1,
            first_match_from(hay@, needle@, 0) == first_match_from(hay@, needle@, i as int),
        decreases last + 1 - i,
    {
        let m = sub_chars(hay, i, i + needle.len());
        if crate::lex::compare_chars(m.as_slice(), needle.as_slice()) == 0 {
            return Some(i);
        }
        i = i + 1;
    }
    None
}

/// The earliest match of one of `needles` in `hay`; see `best_match`.
pub fn best_match_in(hay: &Vec<char>, needles: &Vec<Vec<char>>) -> (r: Option<(usize, usize)>)
    requires
        forall|k: int| 0 <= k < needles@.len() ==> (#[trigger] needles@[k])@.len() > 0,
    ensures
        match r {
            Some((c, l)) => best_match(hay@, needles@.map_values(|v: Vec<char>| v@)) == Some((c as int, l as int))
                && c + l <= hay@.len(),
            None => best_match(hay@, needles@.map_values(|v: Vec<char>| v@)) is None,
        },
{
    let ghost nv = needles@.map_values(|v: Vec<char>| v@);
    let mut best: Option<(usize, usize)> = None;
    let mut k: usize = 0;
    while k < needles.len()
        invariant
            nv == needles@.map_values(|v: Vec<char>| v@),
            forall|j: int| 0 <= j < needles@.len() ==> (#[trigger] needles@[j])@.len() > 0,
            k <= nv.len(),
            match best {
                Some((c, l)) => best_match(hay@, nv.take(k as int)) == Some((c as int, l as int)) && c + l <= hay@.len(),
                None => best_match(hay@, nv.take(k as int)) is None,
            },
        decreases nv.len() - k,
    {
        let needle = &needles[k];
        assert(needles@[k as int]@.len() > 0);
        proof {
            let t1 = nv.take(k + 1);
            assert(t1.drop_last() =~= nv.take(k as int));
            assert(t1.last() == needle@);
        }
        match find_first(hay, needle) {
            Some(p) => {
                match best {
                    Some((c, _)) => {
                        if p < c {
                            best = Some((p, needle.len()));
                        }
                    },
                    None => {
                        best = Some((p, needle.len()));
                    },
                }
            },
            None => {},
        }
        k = k + 1;
    }
    assert(nv.take(nv.len() as int) =~= nv);
    best
}

/// The snippet of `content` around a match (or its head when there is
/// none); see `snippet_for`.
pub fn snippet_around(content: &Vec<char>, found: Option<(usize, usize)>) -> (r: String)
    requires
        found matches Some((c, l)) ==> window_start(c as int) <= content@.len(),
    ensures
        r@ == snippet_for(content@, match found {
            Some((c, l)) => Some((c as int, l as int)),
            None => None,
        }),
{
    match found {
        None => {
            let n = if content.len() < 2 * SNIPPET_WINDOW { content.len() } else { 2 * SNIPPET_WINDOW };
            let head = sub_chars(content, 0, n);
            assert(content@.subrange(0, content@.len() as int) =~= content@);
            string_from_chars(head.as_slice())
        },
        Some((center, len)) => {
            let start = if center >= SNIPPET_WINDOW { center - SNIPPET_WINDOW } else { 0 };
            let end = if (content.len() as u128) < (center as u128) + (len as u128) + (SNIPPET_WINDOW as u128) {
                content.len()
            } else {
                center + len + SNIPPET_WINDOW
            };
            let mut out: Vec<char> = Vec::new();
            let dots = chars_of("...");
            if start > 0 {
                out = sub_chars(&dots, 0, dots.len());
                assert(dots@.subrange(0, dots@.len() as int) =~= dots@);
            }
            let mut mid = sub_chars(content, start, end);
            out.append(&mut mid);
            if end < content.len() {
                let mut tail = sub_chars(&dots, 0, dots.len());
                assert(dots@.subrange(0, dots@.len() as int) =~= dots@);
                out.append(&mut tail);
            }
            assert(out@ =~= windowed(content@, start as int, end as int));
            string_from_chars(out.as_slice())
        },
    }
}

/// The lower-cased, non-empty terms; see `lowered_terms`.
fn lower_terms(terms: &[String]) -> (r: Vec<Vec<char>>)
    ensures
        r@.map_values(|v: Vec<char>| v@) == lowered_terms(strings_view(terms@)),
        forall|k: int| 0 <= k < r@.len() ==> (#[trigger] r@[k])@.len() > 0,
{
    let ghost tv = strings_view(terms@);
    let mut out: Vec<Vec<char>> = Vec::new();
    let mut k: usize = 0;
    while k < terms.len()
        invariant
            tv == strings_view(terms@),
            k <= tv.len(),
            out@.map_values(|v: Vec<char>| v@) == lowered_terms(tv.take(k as int)),
            forall|j: int| 0 <= j < out@.len() ==> (#[trigger] out@[j])@.len() > 0,
        decreases tv.len() - k,
    {
        let tc = chars_of(terms[k].as_str());
        let l = lowercase_chars(&tc);
        proof {
            let t1 = tv.take(k + 1);
            assert(t1.drop_last() =~= tv.take(k as int));
            assert(t1.last() == tc@);
        }
        if l.len() > 0 {
            let ghost before = out@;
            out.push(l);
            assert(out@.map_values(|v: Vec<char>| v@) =~= before.map_values(|v: Vec<char>| v@).push(l@));
        }
        k = k + 1;
    }
    assert(tv.take(tv.len() as int) =~= tv);
    out
}

/// The snippet of `content` for `terms`; see `snippet_of`. `None` stands for
/// the case where no window can be cut around the match.
pub fn generate_snippet(content: &str, terms: &[String]) -> (r: Option<String>)
    ensures
        match r {
            Some(s) => snippet_of(content@, strings_view(terms@)) == Some(s@),
            None => snippet_of(content@, strings_view(terms@)) is None,
        },
{
    let chars = chars_of(content);
    let needles = lower_terms(terms);
    let lowered = lowercase_chars(&chars);
    let found = best_match_in(&lowered, &needles);
    match found {
        Some((c, _)) => {
            let start = if c >= SNIPPET_WINDOW { c - SNIPPET_WINDOW } else { 0 };
            if start > chars.len() {
                return None;
            }
        },
        None => {},
    }
    Some(snippet_around(&chars, found))
}

} // verus!
