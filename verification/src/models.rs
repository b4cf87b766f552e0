//! The data that the service stores, receives and answers with.
use vstd::prelude::*;

verus! {

/// A point in time: whole seconds since the Unix epoch (UTC) and the
/// nanoseconds past that second.
#[derive(Clone, Copy, Debug, PartialEq, Eq, Structural)]
pub struct Timestamp {
    pub secs: i64,
    pub nanos: u32,
}

/// `a` is not later than `b`.
pub open spec fn ts_le(a: Timestamp, b: Timestamp) -> bool {
    a.secs < b.secs || (a.secs == b.secs && a.nanos <= b.nanos)
}

impl Timestamp {
    /// The start of whole second `secs`.
    pub fn from_secs(secs: i64) -> (r: Timestamp)
        ensures
            r.secs == secs,
            r.nanos == 0,
    {
        Timestamp { secs, nanos: 0 }
    }

    /// Whether `self` is not later than `other`.
    pub fn le(&self, other: &Timestamp) -> (r: bool)
        ensures
            r == ts_le(*self, *other),
    {
        self.secs < other.secs || (self.secs == other.secs && self.nanos <= other.nanos)
    }
}

#[derive(Debug, Clone)]
pub struct Document {
    pub id: String,
    pub title: String,
    pub author: String,
    pub tags: Vec<String>,
    pub created_at: Timestamp,
    pub content: String,
    pub html: String,
}

#[derive(Debug, Clone)]
pub struct CreateDocumentRequest {
    pub title: String,
    pub author: String,
    pub tags: Vec<String>,
    pub content: String,
}

#[derive(Debug, Clone)]
pub struct UpdateDocumentRequest {
    pub title: Option<String>,
    pub author: Option<String>,
    pub tags: Option<Vec<String>>,
    pub content: Option<String>,
}

#[derive(Debug, Clone)]
pub struct AutocompleteResult {
    pub query: String,
    pub count: u64,
}

#[derive(Debug, Clone)]
pub struct SearchHistoryEntry {
    pub query: String,
    pub timestamp: Timestamp,
    pub ip: Option<String>,
}

#[derive(Debug, Clone)]
pub struct BatchImportResult {
    pub success_count: usize,
    pub fail_count: usize,
    pub failures: Vec<BatchFailure>,
}

#[derive(Debug, Clone)]
pub struct BatchFailure {
    pub index: usize,
    pub reason: String,
}

/// An error answered to a client: a message and the request field it concerns.
#[derive(Debug, Clone)]
pub struct ApiError {
    pub error: String,
    pub field: Option<String>,
}

/// The views of a vector of strings.
pub open spec fn strings_view(v: Seq<String>) -> Seq<Seq<char>> {
    v.map_values(|t: String| t@)
}

/// The view of an optional string.
pub open spec fn opt_string_view(o: Option<String>) -> Option<Seq<char>> {
    match o {
        Some(s) => Some(s@),
        None => None,
    }
}

/// A document as plain values.
pub struct DocView {
    pub id: Seq<char>,
    pub title: Seq<char>,
    pub author: Seq<char>,
    pub tags: Seq<Seq<char>>,
    pub created_at: Timestamp,
    pub content: Seq<char>,
    pub html: Seq<char>,
}

impl View for Document {
    type V = DocView;

    open spec fn view(&self) -> DocView {
        DocView {
            id: self.id@,
            title: self.title@,
            author: self.author@,
            tags: strings_view(self.tags@),
            created_at: self.created_at,
            content: self.content@,
            html: self.html@,
        }
    }
}

/// The views of a pushed vector are the pushed views.
pub proof fn lemma_strings_view_push(v: Seq<String>, s: String)
    ensures
        strings_view(v.push(s)) == strings_view(v).push(s@),
{
    assert(strings_view(v.push(s)) =~= strings_view(v).push(s@));
}

/// A copy of a vector of strings.
pub fn clone_strings(v: &Vec<String>) -> (r: Vec<String>)
    ensures
        strings_view(r@) == strings_view(v@),
{
    let mut out: Vec<String> = Vec::new();
    let mut i: usize = 0;
    while i < v.len()
        invariant
            i <= v@.len(),
            strings_view(out@) == strings_view(v@).take(i as int),
        decreases v@.len() - i,
    {
        let s = v[i].clone();
        proof {
            lemma_strings_view_push(out@, s);
        }
        out.push(s);
        i = i + 1;
        assert(strings_view(out@) =~= strings_view(v@).take(i as int));
    }
    assert(strings_view(v@).take(v@.len() as int) =~= strings_view(v@));
    out
}

/// A copy of an optional string.
pub fn clone_opt_string(o: &Option<String>) -> (r: Option<String>)
    ensures
        opt_string_view(r) == opt_string_view(*o),
{
    match o {
        Some(s) => Some(s.clone()),
        None => None,
    }
}

impl Document {
    /// A copy of the document.
    pub fn duplicate(&self) -> (r: Document)
        ensures
            r@ == self@,
    {
        Document {
            id: self.id.clone(),
            title: self.title.clone(),
            author: self.author.clone(),
            tags: clone_strings(&self.tags),
            created_at: self.created_at,
            content: self.content.clone(),
            html: self.html.clone(),
        }
    }
}

impl CreateDocumentRequest {
    /// A copy of the request.
    pub fn duplicate(&self) -> (r: CreateDocumentRequest)
        ensures
            r.title@ == self.title@,
            r.author@ == self.author@,
            strings_view(r.tags@) == strings_view(self.tags@),
            r.content@ == self.content@,
    {
        CreateDocumentRequest {
            title: self.title.clone(),
            author: self.author.clone(),
            tags: clone_strings(&self.tags),
            content: self.content.clone(),
        }
    }
}

/// A history entry as plain values.
pub struct EntryView {
    pub query: Seq<char>,
    pub timestamp: Timestamp,
    pub ip: Option<Seq<char>>,
}

impl View for SearchHistoryEntry {
    type V = EntryView;

    open spec fn view(&self) -> EntryView {
        EntryView { query: self.query@, timestamp: self.timestamp, ip: opt_string_view(self.ip) }
    }
}

impl SearchHistoryEntry {
    /// A copy of the entry.
    pub fn duplicate(&self) -> (r: SearchHistoryEntry)
        ensures
            r@ == self@,
    {
        SearchHistoryEntry {
            query: self.query.clone(),
            timestamp: self.timestamp,
            ip: clone_opt_string(&self.ip),
        }
    }
}

} // verus!
