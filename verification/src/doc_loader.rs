//! Reading a Markdown document: its front matter (`key: value` lines between
//! `---` fences) and the fields that a document takes from it.
use vstd::prelude::*;
use crate::markdown::{markdown_html, markdown_to_html};
use crate::models::{DocView, Document, Timestamp, lemma_strings_view_push, strings_view};
use crate::snippet::{find_first, first_match_from};
use crate::sorted_map::SortedMap;
use crate::text::{
    chars_of, has_prefix, spec_has_prefix, split_chars, split_on, string_from_chars, sub_chars,
    trim_chars, trim_quote_chars, trim_quotes, trim_start_chars, trim_start_ws, trim_ws,
};
use crate::time::{parse_rfc3339, rfc3339_instant};

verus! {

broadcast use vstd::string::group_string_axioms;

/// What one line of front matter adds: for a line with a colon, the text
/// before the first colon, trimmed, maps to the text after it, trimmed and
/// without surrounding double quotes; a later line wins over an earlier one.
pub open spec fn apply_line(m: Map<Seq<char>, Seq<char>>, line: Seq<char>) -> Map<Seq<char>, Seq<char>> {
    match first_match_from(line, seq![':'], 0) {
        Some(k) => m.insert(trim_ws(line.take(k)), trim_quotes(trim_ws(line.skip(k + 1)))),
        None => m,
    }
}

/// The fields of the first `n` lines.
pub open spec fn fields_of_lines(lines: Seq<Seq<char>>, n: nat) -> Map<Seq<char>, Seq<char>>
    decreases n,
{
    if n == 0 || n > lines.len() {
        Map::empty()
    } else {
        apply_line(fields_of_lines(lines, (n - 1) as nat), lines[n - 1])
    }
}

/// The front matter fields and the body of a Markdown text. The text must
/// open with `---` and a newline; the fields end at the next newline followed
/// by `---`; the body is what follows that fence, without leading whitespace.
/// Without both fences there are no fields and the body is the whole text.
pub open spec fn front_matter_of(content: Seq<char>) -> (Map<Seq<char>, Seq<char>>, Seq<char>) {
    if !spec_has_prefix(content, "---\n"@) {
        (Map::empty(), content)
    } else {
        let rest = content.skip("---\n"@.len() as int);
        match first_match_from(rest, "\n---"@, 0) {
            None => (Map::empty(), content),
            Some(e) => {
                let yaml = rest.take(e);
                let body_start = e + "\n---"@.len();
                let body = if body_start < rest.len() {
                    trim_start_ws(rest.skip(body_start))
                } else {
                    Seq::empty()
                };
                let lines = split_on(yaml, '\n');
                (fields_of_lines(lines, lines.len()), body)
            },
        }
    }
}

/// The non-empty pieces, trimmed, of the first `n` pieces.
pub open spec fn kept_pieces(pieces: Seq<Seq<char>>, n: nat) -> Seq<Seq<char>>
    decreases n,
{
    if n == 0 || n > pieces.len() {
        Seq::empty()
    } else {
        let prev = kept_pieces(pieces, (n - 1) as nat);
        let t = trim_ws(pieces[n - 1]);
        if t.len() > 0 {
            prev.push(t)
        } else {
            prev
        }
    }
}

/// The tags of a comma-separated list: each piece trimmed, empty ones dropped.
pub open spec fn tags_of(s: Seq<char>) -> Seq<Seq<char>> {
    let pieces = split_on(s, ',');
    kept_pieces(pieces, pieces.len())
}

/// Front matter fields.
pub struct FrontMatter {
    fields: SortedMap<String>,
}

impl View for FrontMatter {
    type V = Map<Seq<char>, Seq<char>>;

    closed spec fn view(&self) -> Map<Seq<char>, Seq<char>> {
        self.fields.map().map_values(|v: String| v@)
    }
}

impl FrontMatter {
    pub closed spec fn wf(&self) -> bool {
        self.fields.wf()
    }

    fn empty() -> (r: FrontMatter)
        ensures
            r.wf(),
            r@ == Map::<Seq<char>, Seq<char>>::empty(),
    {
        let r = FrontMatter { fields: SortedMap::new() };
        assert(r@ =~= Map::<Seq<char>, Seq<char>>::empty());
        r
    }

    /// Sets `key` to `value`.
    fn set(&mut self, key: Vec<char>, value: String)
        requires
            old(self).wf(),
        ensures
            final(self).wf(),
            final(self)@ == old(self)@.insert(key@, value@),
    {
        let ghost before = self@;
        let ghost vv = value@;
        match self.fields.search(key.as_slice()) {
            Ok(i) => {
                let mut v = value;
                self.fields.swap_val(i, &mut v);
            },
            Err(p) => {
                self.fields.insert_at(p, key, value);
            },
        }
        assert(self@ =~= before.insert(key@, vv));
    }

    /// The value of `key`, if the front matter sets it.
    pub fn get(&self, key: &str) -> (r: Option<String>)
        requires
            self.wf(),
        ensures
            match r {
                Some(v) => self@.contains_key(key@) && self@[key@] == v@,
                None => !self@.contains_key(key@),
            },
    {
        let kc = chars_of(key);
        match self.fields.get(kc.as_slice()) {
            Some(v) => Some(v.clone()),
            None => None,
        }
    }
}

/// The fields of a list of front matter lines; see `fields_of_lines`.
fn fields_from_lines(lines: &Vec<Vec<char>>) -> (r: FrontMatter)
    ensures
        r.wf(),
        r@ == fields_of_lines(lines@.map_values(|v: Vec<char>| v@), lines@.len() as nat),
{
    let ghost lv = lines@.map_values(|v: Vec<char>| v@);
    let mut fm = FrontMatter::empty();
    let colon = chars_of(":");
    proof {
        reveal_strlit(":");
    }
    assert(colon@ =~= seq![':']);
    let mut k: usize = 0;
    while k < lines.len()
        invariant
            lv == lines@.map_values(|v: Vec<char>| v@),
            colon@ == seq![':'],
            k <= lv.len(),
            fm.wf(),
            fm@ == fields_of_lines(lv, k as nat),
        decreases lv.len() - k,
    {
        let line = &lines[k];
        let line_len = line.len();
        assert(lv[k as int] == line@);
        match find_first(line, &colon) {
            Some(c) => {
                let key_part = sub_chars(line, 0, c);
                assert(c + 1 <= line_len);
                let value_part = sub_chars(line, c + 1, line_len);
                assert(key_part@ =~= line@.take(c as int));
                assert(value_part@ =~= line@.skip(c + 1));
                let key = trim_chars(&key_part);
                let trimmed = trim_chars(&value_part);
                let value = trim_quote_chars(&trimmed);
                fm.set(key, string_from_chars(value.as_slice()));
            },
            None => {},
        }
        k = k + 1;
    }
    fm
}

/// Splits a Markdown text into its front matter fields and its body; see
/// `front_matter_of`.
pub fn parse_front_matter(content: &str) -> (r: (FrontMatter, String))
    ensures
        r.0.wf(),
        (r.0@, r.1@) == front_matter_of(content@),
{
    let chars = chars_of(content);
    let open = chars_of("---\n");
    let close = chars_of("\n---");
    proof {
        reveal_strlit("\n---");
    }
    if !has_prefix(&chars, &open) {
        return (FrontMatter::empty(), content.to_owned());
    }
    let rest = sub_chars(&chars, open.len(), chars.len());
    assert(rest@ =~= chars@.skip(open@.len() as int));
    match find_first(&rest, &close) {
        None => (FrontMatter::empty(), content.to_owned()),
        Some(e) => {
            let yaml = sub_chars(&rest, 0, e);
            assert(yaml@ =~= rest@.take(e as int));
            let body_start = e + close.len();
            let body = if body_start < rest.len() {
                let tail = sub_chars(&rest, body_start, rest.len());
                assert(tail@ =~= rest@.skip(body_start as int));
                let t = trim_start_chars(&tail);
                string_from_chars(t.as_slice())
            } else {
                String::new()
            };
            let lines = split_chars(&yaml, '\n');
            let fm = fields_from_lines(&lines);
            (fm, body)
        },
    }
}

/// The tags of a comma-separated list; see `tags_of`.
pub fn parse_tags(s: &str) -> (r: Vec<String>)
    ensures
        strings_view(r@) == tags_of(s@),
{
    let chars = chars_of(s);
    let pieces = split_chars(&chars, ',');
    let ghost pv = pieces@.map_values(|v: Vec<char>| v@);
    let mut out: Vec<String> = Vec::new();
    let mut k: usize = 0;
    while k < pieces.len()
        invariant
            pv == pieces@.map_values(|v: Vec<char>| v@),
            k <= pv.len(),
            strings_view(out@) == kept_pieces(pv, k as nat),
        decreases pv.len() - k,
    {
        assert(pv[k as int] == pieces@[k as int]@);
        let t = trim_chars(&pieces[k]);
        if t.len() > 0 {
            let ts = string_from_chars(t.as_slice());
            proof {
                lemma_strings_view_push(out@, ts);
            }
            out.push(ts);
        }
        k = k + 1;
    }
    out
}

/// The document that a Markdown file yields: the title from the front matter,
/// else the file's stem, else `Untitled`; the author from the front matter,
/// else `unknown`; the tags from its comma-separated `tags` field; the
/// creation time from its RFC 3339 `date` field, else `fallback`.
pub open spec fn doc_from_file(
    fields: Map<Seq<char>, Seq<char>>,
    body: Seq<char>,
    stem: Option<Seq<char>>,
    id: Seq<char>,
    fallback: Timestamp,
    html: Seq<char>,
) -> DocView {
    DocView {
        id,
        title: if fields.contains_key("title"@) {
            fields["title"@]
        } else {
            match stem {
                Some(s) => s,
                None => "Untitled"@,
            }
        },
        author: if fields.contains_key("author"@) {
            fields["author"@]
        } else {
            "unknown"@
        },
        tags: if fields.contains_key("tags"@) {
            tags_of(fields["tags"@])
        } else {
            Seq::empty()
        },
        created_at: if fields.contains_key("date"@) && rfc3339_instant(fields["date"@]) is Some {
            rfc3339_instant(fields["date"@])->0
        } else {
            fallback
        },
        content: body,
        html,
    }
}

/// Builds the document of a Markdown file; see `doc_from_file`.
pub fn document_from_file(
    fm: &FrontMatter,
    body: String,
    stem: Option<String>,
    id: String,
    fallback: Timestamp,
    html: String,
) -> (d: Document)
    requires
        fm.wf(),
    ensures
        d@ == doc_from_file(fm@, body@, crate::models::opt_string_view(stem), id@, fallback, html@),
{
    let title = match fm.get("title") {
        Some(t) => t,
        None => match stem {
            Some(s) => s,
            None => "Untitled".to_owned(),
        },
    };
    let author = match fm.get("author") {
        Some(a) => a,
        None => "unknown".to_owned(),
    };
    let tags = match fm.get("tags") {
        Some(t) => parse_tags(t.as_str()),
        None => Vec::new(),
    };
    assert(fm@.contains_key("tags"@) || strings_view(tags@) =~= Seq::<Seq<char>>::empty());
    let created_at = match fm.get("date") {
        Some(s) => match parse_rfc3339(s.as_str()) {
            Some(t) => t,
            None => fallback,
        },
        None => fallback,
    };
    Document { id, title, author, tags, created_at, content: body, html }
}

/// The document of a Markdown file, given its text and the file's stem: its
/// front matter and body (see `front_matter_of`), the rendering of the body,
/// a fresh id, and the current time when the front matter gives no valid
/// date.
pub fn load_single_doc(content: &str, stem: Option<String>) -> (d: Document)
    ensures
        crate::ids::is_v4_uuid_text(d@.id),
        d@ == doc_from_file(
            front_matter_of(content@).0,
            front_matter_of(content@).1,
            crate::models::opt_string_view(stem),
            d@.id,
            d@.created_at,
            markdown_html(front_matter_of(content@).1),
        ),
{
    let (fm, body) = parse_front_matter(content);
    let html = markdown_to_html(body.as_str());
    let id = crate::ids::new_doc_id();
    let fallback = crate::time::now();
    document_from_file(&fm, body, stem, id, fallback, html)
}

} // verus!
