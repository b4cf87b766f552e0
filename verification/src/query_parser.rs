//! Reads a search query: free words, quoted phrases, and the filters
//! `tag:`, `author:`, `after:` and `before:`.
use vstd::prelude::*;
use crate::models::{lemma_strings_view_push, strings_view};
use crate::text::{
    chars_of, has_prefix, is_whitespace, spec_has_prefix, spec_is_whitespace, string_from_chars,
    sub_chars,
};
use crate::time::{parse_ymd_midnight, ymd_midnight};
use crate::tokenizer::{spec_tokenize, tokenize_chars};
use crate::validation::utf8_len;

verus! {

broadcast use vstd::string::group_string_axioms;

/// Seconds from midnight to the last whole second of a day.
pub const LAST_SECOND_OF_DAY: i64 = 86399;

/// The first position at or after `i` that holds a double quote, or the length.
pub open spec fn next_quote(s: Seq<char>, i: int) -> int
    decreases s.len() - i,
{
    if i < 0 || i >= s.len() {
        s.len() as int
    } else if s[i] == '"' {
        i
    } else {
        next_quote(s, i + 1)
    }
}

/// The first position at or after `i` that holds whitespace, or the length.
pub open spec fn next_space(s: Seq<char>, i: int) -> int
    decreases s.len() - i,
{
    if i < 0 || i >= s.len() {
        s.len() as int
    } else if spec_is_whitespace(s[i]) {
        i
    } else {
        next_space(s, i + 1)
    }
}

/// The next quote lies between `i` and the end.
pub proof fn lemma_next_quote_bounds(s: Seq<char>, i: int)
    requires
        0 <= i <= s.len(),
    ensures
        i <= next_quote(s, i) <= s.len(),
    decreases s.len() - i,
{
    if i < s.len() && s[i] != '"' {
        lemma_next_quote_bounds(s, i + 1);
    }
}

/// The next whitespace lies between `i` and the end.
pub proof fn lemma_next_space_bounds(s: Seq<char>, i: int)
    requires
        0 <= i <= s.len(),
    ensures
        i <= next_space(s, i) <= s.len(),
    decreases s.len() - i,
{
    if i < s.len() && !spec_is_whitespace(s[i]) {
        lemma_next_space_bounds(s, i + 1);
    }
}

/// The words of a query from position `i` on: a double quote opens a phrase
/// that runs to the next double quote (or the end) and is kept, quotes
/// included, when its UTF-8 encoding is longer than two bytes; otherwise a
/// word is a run of non-whitespace characters.
pub open spec fn query_words_from(s: Seq<char>, i: int) -> Seq<Seq<char>>
    decreases s.len() - i,
{
    if i < 0 || i >= s.len() {
        Seq::empty()
    } else if s[i] == '"' {
        let j = next_quote(s, i + 1);
        proof {
            lemma_next_quote_bounds(s, i + 1);
        }
        let closed = j < s.len();
        let phrase = seq!['"'] + s.subrange(i + 1, j) + (if closed { seq!['"'] } else { Seq::empty() });
        let rest = query_words_from(s, if closed { j + 1 } else { j });
        if utf8_len(phrase) > 2 {
            seq![phrase] + rest
        } else {
            rest
        }
    } else if spec_is_whitespace(s[i]) {
        query_words_from(s, i + 1)
    } else {
        let j = next_space(s, i + 1);
        proof {
            lemma_next_space_bounds(s, i + 1);
        }
        seq![s.subrange(i, j)] + query_words_from(s, j)
    }
}

/// The words of a query.
pub open spec fn query_words(s: Seq<char>) -> Seq<Seq<char>> {
    query_words_from(s, 0)
}

/// A parsed query as plain values. Dates are seconds since the Unix epoch.
#[verifier::ext_equal]
pub struct QueryView {
    pub search_terms: Seq<Seq<char>>,
    pub phrase_terms: Seq<Seq<Seq<char>>>,
    pub tag_filters: Seq<Seq<char>>,
    pub author_filter: Option<Seq<char>>,
    pub after_date: Option<i64>,
    pub before_date: Option<i64>,
}

pub open spec fn empty_query() -> QueryView {
    QueryView {
        search_terms: Seq::empty(),
        phrase_terms: Seq::empty(),
        tag_filters: Seq::empty(),
        author_filter: None,
        after_date: None,
        before_date: None,
    }
}

/// `w` is a quoted phrase: it starts and ends with a double quote and has at
/// least two characters.
pub open spec fn is_quoted(w: Seq<char>) -> bool {
    w.len() >= 2 && w[0] == '"' && w[w.len() - 1] == '"'
}

/// The parse after a date filter: `midnight` is the midnight instant of the
/// date written after `after:` or `before:` (`None` when no date was read);
/// `after:` keeps that instant, `before:` the last second of that day.
pub open spec fn date_applied(q: QueryView, is_before: bool, midnight: Option<i64>) -> QueryView {
    match midnight {
        Some(t) => if is_before {
            QueryView { before_date: Some((t + LAST_SECOND_OF_DAY) as i64), ..q }
        } else {
            QueryView { after_date: Some(t), ..q }
        },
        None => q,
    }
}

/// What one word of a query adds to the parse so far.
pub open spec fn apply_word(q: QueryView, w: Seq<char>) -> QueryView {
    if spec_has_prefix(w, "tag:"@) {
        let rest = w.skip("tag:"@.len() as int);
        if rest.len() > 0 {
            QueryView { tag_filters: q.tag_filters.push(rest), ..q }
        } else {
            q
        }
    } else if spec_has_prefix(w, "author:"@) {
        let rest = w.skip("author:"@.len() as int);
        if rest.len() > 0 {
            QueryView { author_filter: Some(rest), ..q }
        } else {
            q
        }
    } else if spec_has_prefix(w, "after:"@) {
        date_applied(q, false, ymd_midnight(w.skip("after:"@.len() as int)))
    } else if spec_has_prefix(w, "before:"@) {
        date_applied(q, true, ymd_midnight(w.skip("before:"@.len() as int)))
    } else if is_quoted(w) {
        let terms = spec_tokenize(w.subrange(1, w.len() - 1));
        if terms.len() > 0 {
            QueryView { phrase_terms: q.phrase_terms.push(terms), ..q }
        } else {
            q
        }
    } else {
        QueryView { search_terms: q.search_terms + spec_tokenize(w), ..q }
    }
}

/// The parse of the first `n` words.
pub open spec fn apply_words(words: Seq<Seq<char>>, n: nat) -> QueryView
    decreases n,
{
    if n == 0 || n > words.len() {
        empty_query()
    } else {
        apply_word(apply_words(words, (n - 1) as nat), words[n - 1])
    }
}

/// The parse of a query.
pub open spec fn spec_parse_query(s: Seq<char>) -> QueryView {
    let words = query_words(s);
    apply_words(words, words.len())
}

#[derive(Debug, Clone)]
pub struct ParsedQuery {
    pub search_terms: Vec<String>,
    pub phrase_terms: Vec<Vec<String>>,
    pub tag_filters: Vec<String>,
    pub author_filter: Option<String>,
    pub after_date: Option<i64>,
    pub before_date: Option<i64>,
}

/// The views of a list of phrases.
pub open spec fn phrases_view(p: Seq<Vec<String>>) -> Seq<Seq<Seq<char>>> {
    p.map_values(|v: Vec<String>| strings_view(v@))
}

impl View for ParsedQuery {
    type V = QueryView;

    open spec fn view(&self) -> QueryView {
        QueryView {
            search_terms: strings_view(self.search_terms@),
            phrase_terms: phrases_view(self.phrase_terms@),
            tag_filters: strings_view(self.tag_filters@),
            author_filter: match self.author_filter {
                Some(a) => Some(a@),
                None => None,
            },
            after_date: self.after_date,
            before_date: self.before_date,
        }
    }
}

proof fn lemma_next_quote_found(s: Seq<char>, start: int, k: int)
    requires
        0 <= start <= k <= s.len(),
        forall|m: int| start <= m < k ==> s[m] != '"',
        k == s.len() || s[k] == '"',
    ensures
        next_quote(s, start) == k,
    decreases k - start,
{
    if start < k {
        lemma_next_quote_found(s, start + 1, k);
    }
}

proof fn lemma_next_space_found(s: Seq<char>, start: int, k: int)
    requires
        0 <= start <= k <= s.len(),
        forall|m: int| start <= m < k ==> !spec_is_whitespace(s[m]),
        k == s.len() || spec_is_whitespace(s[k]),
    ensures
        next_space(s, start) == k,
    decreases k - start,
{
    if start < k {
        lemma_next_space_found(s, start + 1, k);
    }
}

/// The words of a query as character vectors; see `query_words`.
fn query_word_chars(chars: &Vec<char>) -> (words: Vec<Vec<char>>)
    ensures
        words@.map_values(|w: Vec<char>| w@) == query_words(chars@),
{
    let ghost s = chars@;
    let n = chars.len();
    let mut words: Vec<Vec<char>> = Vec::new();
    let mut i: usize = 0;
    while i < n
        invariant
            n == s.len(),
            s == chars@,
            i <= n,
            words@.map_values(|w: Vec<char>| w@) + query_words_from(s, i as int) == query_words(s),
        decreases n - i,
    {
        let ghost before = words@.map_values(|w: Vec<char>| w@);
        let c = chars[i];
        if c == '"' {
            let mut j: usize = i + 1;
            while j < n && chars[j] != '"'
                invariant
                    n == s.len(),
                    s == chars@,
                    i < j <= n,
                    forall|m: int| i + 1 <= m < j ==> s[m] != '"',
                decreases n - j,
            {
                j = j + 1;
            }
            proof {
                lemma_next_quote_found(s, i + 1, j as int);
            }
            let mut phrase: Vec<char> = Vec::new();
            phrase.push('"');
            let inner = sub_chars(chars, i + 1, j);
            let mut k: usize = 0;
            while k < inner.len()
                invariant
                    phrase@ == seq!['"'] + inner@.take(k as int),
                    k <= inner@.len(),
                decreases inner@.len() - k,
            {
                phrase.push(inner[k]);
                k = k + 1;
                assert(phrase@ =~= seq!['"'] + inner@.take(k as int));
            }
            assert(inner@.take(inner@.len() as int) =~= inner@);
            let closed = j < n;
            if closed {
                phrase.push('"');
                j = j + 1;
            }
            assert(phrase@ =~= seq!['"'] + s.subrange(i + 1, next_quote(s, i + 1)) + (if closed {
                seq!['"']
            } else {
                Seq::<char>::empty()
            }));
            let text = string_from_chars(phrase.as_slice());
            if text.as_str().len() > 2 {
                words.push(phrase);
                assert(words@.map_values(|w: Vec<char>| w@) =~= before.push(phrase@));
            }
            i = j;
        } else if is_whitespace(c) {
            i = i + 1;
        } else {
            let mut j: usize = i + 1;
            while j < n && !is_whitespace(chars[j])
                invariant
                    n == s.len(),
                    s == chars@,
                    i < j <= n,
                    forall|m: int| i + 1 <= m < j ==> !spec_is_whitespace(s[m]),
                decreases n - j,
            {
                j = j + 1;
            }
            proof {
                lemma_next_space_found(s, i + 1, j as int);
            }
            let word = sub_chars(chars, i, j);
            words.push(word);
            assert(words@.map_values(|w: Vec<char>| w@) =~= before.push(word@));
            i = j;
        }
    }
    assert(query_words_from(s, n as int) =~= Seq::<Seq<char>>::empty());
    assert(words@.map_values(|w: Vec<char>| w@) =~= query_words(s));
    words
}

/// Splits a query into its words; see `query_words`.
pub fn tokenize_query(query: &str) -> (tokens: Vec<String>)
    ensures
        strings_view(tokens@) == query_words(query@),
{
    let chars = chars_of(query);
    let words = query_word_chars(&chars);
    let mut out: Vec<String> = Vec::new();
    let mut k: usize = 0;
    while k < words.len()
        invariant
            k <= words@.len(),
            strings_view(out@) == words@.map_values(|w: Vec<char>| w@).take(k as int),
        decreases words@.len() - k,
    {
        let s = string_from_chars(words[k].as_slice());
        proof {
            lemma_strings_view_push(out@, s);
        }
        out.push(s);
        k = k + 1;
        assert(strings_view(out@) =~= words@.map_values(|w: Vec<char>| w@).take(k as int));
    }
    assert(words@.map_values(|w: Vec<char>| w@).take(words@.len() as int) =~= words@.map_values(
        |w: Vec<char>| w@,
    ));
    out
}

/// Applies a date filter to the parse so far; see `date_applied`.
pub fn apply_date(q: &mut ParsedQuery, is_before: bool, midnight: Option<i64>)
    requires
        is_before ==> (midnight matches Some(t) ==> t + LAST_SECOND_OF_DAY <= i64::MAX),
    ensures
        final(q)@ == date_applied(old(q)@, is_before, midnight),
{
    if let Some(t) = midnight {
        if is_before {
            q.before_date = Some(t + LAST_SECOND_OF_DAY);
        } else {
            q.after_date = Some(t);
        }
    }
}

/// Applies one word of a query to the parse so far; see `apply_word`.
fn apply_word_exec(q: &mut ParsedQuery, w: &Vec<char>)
    ensures
        final(q)@ == apply_word(old(q)@, w@),
{
    let tag_p = chars_of("tag:");
    let author_p = chars_of("author:");
    let after_p = chars_of("after:");
    let before_p = chars_of("before:");
    if has_prefix(w, &tag_p) {
        let rest = sub_chars(w, tag_p.len(), w.len());
        assert(rest@ =~= w@.skip("tag:"@.len() as int));
        if rest.len() > 0 {
            let t = string_from_chars(rest.as_slice());
            proof {
                lemma_strings_view_push(q.tag_filters@, t);
            }
            q.tag_filters.push(t);
        }
    } else if has_prefix(w, &author_p) {
        let rest = sub_chars(w, author_p.len(), w.len());
        assert(rest@ =~= w@.skip("author:"@.len() as int));
        if rest.len() > 0 {
            q.author_filter = Some(string_from_chars(rest.as_slice()));
        }
    } else if has_prefix(w, &after_p) {
        let rest = sub_chars(w, after_p.len(), w.len());
        assert(rest@ =~= w@.skip("after:"@.len() as int));
        let text = string_from_chars(rest.as_slice());
        apply_date(q, false, parse_ymd_midnight(text.as_str()));
    } else if has_prefix(w, &before_p) {
        let rest = sub_chars(w, before_p.len(), w.len());
        assert(rest@ =~= w@.skip("before:"@.len() as int));
        let text = string_from_chars(rest.as_slice());
        apply_date(q, true, parse_ymd_midnight(text.as_str()));
    } else if w.len() >= 2 && w[0] == '"' && w[w.len() - 1] == '"' {
        let inner = sub_chars(w, 1, w.len() - 1);
        let terms = tokenize_chars(&inner);
        if terms.len() > 0 {
            let ghost old_p = q.phrase_terms@;
            q.phrase_terms.push(terms);
            assert(phrases_view(q.phrase_terms@) =~= phrases_view(old_p).push(strings_view(terms@)));
        }
    } else {
        let mut terms = tokenize_chars(w);
        let ghost old_s = strings_view(q.search_terms@);
        let ghost tv = strings_view(terms@);
        q.search_terms.append(&mut terms);
        assert(strings_view(q.search_terms@) =~= old_s + tv);
    }
}

/// Parses a search query; see `spec_parse_query`.
pub fn parse_query(query: &str) -> (r: ParsedQuery)
    ensures
        r@ == spec_parse_query(query@),
{
    let mut result = ParsedQuery {
        search_terms: Vec::new(),
        phrase_terms: Vec::new(),
        tag_filters: Vec::new(),
        author_filter: None,
        after_date: None,
        before_date: None,
    };
    assert(result@ =~= empty_query());
    let chars = chars_of(query);
    let words = query_word_chars(&chars);
    let ghost ws = words@.map_values(|w: Vec<char>| w@);
    let mut k: usize = 0;
    while k < words.len()
        invariant
            k <= words@.len(),
            ws == words@.map_values(|w: Vec<char>| w@),
            result@ == apply_words(ws, k as nat),
        decreases words@.len() - k,
    {
        apply_word_exec(&mut result, &words[k]);
        k = k + 1;
    }
    result
}

/// All the terms of a parsed query: the free terms, then the terms of each
/// phrase in order.
pub fn extract_search_terms(parsed: &ParsedQuery) -> (r: Vec<String>)
    ensures
        strings_view(r@) == parsed@.search_terms + parsed@.phrase_terms.flatten(),
{
    let mut all_terms = crate::models::clone_strings(&parsed.search_terms);
    let mut k: usize = 0;
    while k < parsed.phrase_terms.len()
        invariant
            k <= parsed.phrase_terms@.len(),
            strings_view(all_terms@) == parsed@.search_terms + parsed@.phrase_terms.take(
                k as int,
            ).flatten(),
        decreases parsed.phrase_terms@.len() - k,
    {
        let mut more = crate::models::clone_strings(&parsed.phrase_terms[k]);
        let ghost prev = strings_view(all_terms@);
        let ghost mv = strings_view(more@);
        all_terms.append(&mut more);
        proof {
            let p = parsed@.phrase_terms;
            assert(p.take(k + 1) =~= p.take(k as int).push(p[k as int]));
            p.take(k as int).lemma_flatten_push(p[k as int]);
            assert(mv == p[k as int]);
        }
        assert(strings_view(all_terms@) =~= prev + mv);
        k = k + 1;
    }
    assert(parsed@.phrase_terms.take(parsed.phrase_terms@.len() as int) =~= parsed@.phrase_terms);
    all_terms
}

} // verus!
