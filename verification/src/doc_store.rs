//! The documents of the service, keyed by their ids.
use vstd::prelude::*;
use crate::markdown::{markdown_html, markdown_to_html};
use crate::models::{
    CreateDocumentRequest, DocView, Document, Timestamp, UpdateDocumentRequest, opt_string_view,
    strings_view,
};

verus! {

broadcast use vstd::string::group_string_axioms;

/// No two documents share an id.
pub open spec fn ids_distinct(docs: Seq<DocView>) -> bool {
    forall|i: int, j: int| 0 <= i < docs.len() && 0 <= j < docs.len() && i != j ==> docs[i].id != docs[j].id
}

/// The position of the document with id `id`, if there is one.
pub open spec fn position_of(docs: Seq<DocView>, id: Seq<char>) -> Option<int> {
    if exists|i: int| 0 <= i < docs.len() && docs[i].id == id {
        Some(choose|i: int| 0 <= i < docs.len() && docs[i].id == id)
    } else {
        None
    }
}

/// The document with id `id`, if there is one.
pub open spec fn doc_with_id(docs: Seq<DocView>, id: Seq<char>) -> Option<DocView> {
    match position_of(docs, id) {
        Some(i) => Some(docs[i]),
        None => None,
    }
}

/// The documents as a map from id to document.
pub open spec fn as_map(docs: Seq<DocView>) -> Map<Seq<char>, DocView> {
    Map::new(|id: Seq<char>| doc_with_id(docs, id) is Some, |id: Seq<char>| doc_with_id(docs, id)->0)
}

/// `d` carries every tag of `tags`.
pub open spec fn has_all_tags(d: DocView, tags: Seq<Seq<char>>) -> bool {
    forall|k: int| 0 <= k < tags.len() ==> d.tags.contains(#[trigger] tags[k])
}

/// `d` carries the tags and the author given; absent ones are not checked.
pub open spec fn doc_selected(d: DocView, tags: Option<Seq<Seq<char>>>, author: Option<Seq<char>>) -> bool {
    &&& (tags matches Some(t) ==> has_all_tags(d, t))
    &&& (author matches Some(a) ==> d.author == a)
}

pub open spec fn opt_tags_view(tags: Option<&[String]>) -> Option<Seq<Seq<char>>> {
    match tags {
        Some(t) => Some(strings_view(t@)),
        None => None,
    }
}

pub open spec fn opt_str_view(s: Option<&str>) -> Option<Seq<char>> {
    match s {
        Some(a) => Some(a@),
        None => None,
    }
}

/// The views of a list of documents.
pub open spec fn docs_view(v: Seq<Document>) -> Seq<DocView> {
    v.map_values(|d: Document| d@)
}

/// The store after `doc` is put under its id: it replaces a document with
/// the same id in place, or comes last.
pub open spec fn stored_with(docs: Seq<DocView>, doc: DocView) -> Seq<DocView> {
    match position_of(docs, doc.id) {
        Some(i) => docs.update(i, doc),
        None => docs.push(doc),
    }
}

/// `d` with the fields that an update request carries replaced; a new body
/// comes with its rendering.
pub open spec fn updated_doc(
    d: DocView,
    title: Option<Seq<char>>,
    author: Option<Seq<char>>,
    tags: Option<Seq<Seq<char>>>,
    content: Option<Seq<char>>,
) -> DocView {
    DocView {
        title: match title {
            Some(t) => t,
            None => d.title,
        },
        author: match author {
            Some(a) => a,
            None => d.author,
        },
        tags: match tags {
            Some(t) => t,
            None => d.tags,
        },
        content: match content {
            Some(c) => c,
            None => d.content,
        },
        html: match content {
            Some(c) => markdown_html(c),
            None => d.html,
        },
        ..d
    }
}

pub struct DocumentStore {
    docs: Vec<Document>,
}

impl View for DocumentStore {
    type V = Seq<DocView>;

    closed spec fn view(&self) -> Seq<DocView> {
        docs_view(self.docs@)
    }
}

proof fn lemma_docs_view_push(v: Seq<Document>, d: Document)
    ensures
        docs_view(v.push(d)) == docs_view(v).push(d@),
{
    assert(docs_view(v.push(d)) =~= docs_view(v).push(d@));
}

proof fn lemma_position_found(docs: Seq<DocView>, id: Seq<char>, i: int)
    requires
        ids_distinct(docs),
        0 <= i < docs.len(),
        docs[i].id == id,
    ensures
        position_of(docs, id) == Some(i),
{
}

/// The document built from a creation request, with its id, creation time and
/// rendered body.
pub open spec fn doc_from_request(
    title: Seq<char>,
    author: Seq<char>,
    tags: Seq<Seq<char>>,
    content: Seq<char>,
    id: Seq<char>,
    created_at: Timestamp,
    html: Seq<char>,
) -> DocView {
    DocView { id, title, author, tags, created_at, content, html }
}

/// Builds the document for a creation request.
pub fn document_from_request(
    req: CreateDocumentRequest,
    id: String,
    created_at: Timestamp,
    html: String,
) -> (d: Document)
    ensures
        d@ == doc_from_request(
            req.title@,
            req.author@,
            strings_view(req.tags@),
            req.content@,
            id@,
            created_at,
            html@,
        ),
{
    Document {
        id,
        title: req.title,
        author: req.author,
        tags: req.tags,
        created_at,
        content: req.content,
        html,
    }
}

/// Whether `d` carries every tag of `tags`.
pub fn carries_all_tags(d: &Document, tags: &[String]) -> (r: bool)
    ensures
        r == has_all_tags(d@, strings_view(tags@)),
{
    let ghost tv = strings_view(tags@);
    let mut k: usize = 0;
    while k < tags.len()
        invariant
            k <= tags@.len(),
            tv == strings_view(tags@),
            forall|m: int| 0 <= m < k ==> d@.tags.contains(#[trigger] tv[m]),
        decreases tags@.len() - k,
    {
        let mut found = false;
        let mut m: usize = 0;
        while m < d.tags.len()
            invariant
                k < tags@.len(),
                tv == strings_view(tags@),
                m <= d.tags@.len(),
                found ==> d@.tags.contains(tv[k as int]),
                !found ==> forall|p: int| 0 <= p < m ==> d@.tags[p] != tv[k as int],
            decreases d.tags@.len() - m,
        {
            proof {
                assert(d@.tags[m as int] == d.tags@[m as int]@);
                assert(tv[k as int] == tags@[k as int]@);
            }
            if d.tags[m] == tags[k] {
                found = true;
            }
            m = m + 1;
        }
        if !found {
            proof {
                assert(!d@.tags.contains(tv[k as int]));
            }
            return false;
        }
        k = k + 1;
    }
    true
}

impl DocumentStore {
    /// The store holds no two documents with the same id.
    pub open spec fn wf(&self) -> bool {
        ids_distinct(self@)
    }

    pub fn new() -> (s: DocumentStore)
        ensures
            s.wf(),
            s@ == Seq::<DocView>::empty(),
    {
        let s = DocumentStore { docs: Vec::new() };
        assert(s@ =~= Seq::<DocView>::empty());
        s
    }

    /// Copies of all documents.
    pub fn get_all(&self) -> (r: Vec<Document>)
        ensures
            docs_view(r@) == self@,
    {
        let mut out: Vec<Document> = Vec::new();
        let mut i: usize = 0;
        while i < self.docs.len()
            invariant
                i <= self.docs@.len(),
                docs_view(out@) == self@.take(i as int),
            decreases self.docs@.len() - i,
        {
            let d = self.docs[i].duplicate();
            proof {
                lemma_docs_view_push(out@, d);
            }
            out.push(d);
            i = i + 1;
            assert(docs_view(out@) =~= self@.take(i as int));
        }
        assert(self@.take(self@.len() as int) =~= self@);
        out
    }

    fn find(&self, id: &str) -> (r: Option<usize>)
        requires
            self.wf(),
        ensures
            match r {
                Some(i) => position_of(self@, id@) == Some(i as int) && i < self@.len(),
                None => position_of(self@, id@) is None,
            },
    {
        let key = id.to_owned();
        let mut i: usize = 0;
        while i < self.docs.len()
            invariant
                i <= self.docs@.len(),
                key@ == id@,
                ids_distinct(self@),
                forall|k: int| 0 <= k < i ==> self@[k].id != id@,
            decreases self.docs@.len() - i,
        {
            assert(self@[i as int] == self.docs@[i as int]@);
            if self.docs[i].id == key {
                proof {
                    lemma_position_found(self@, id@, i as int);
                }
                return Some(i);
            }
            i = i + 1;
        }
        None
    }

    /// A copy of the document with id `id`, if there is one.
    pub fn get_by_id(&self, id: &str) -> (r: Option<Document>)
        requires
            self.wf(),
        ensures
            match r {
                Some(d) => doc_with_id(self@, id@) == Some(d@),
                None => doc_with_id(self@, id@) is None,
            },
    {
        match self.find(id) {
            Some(i) => Some(self.docs[i].duplicate()),
            None => None,
        }
    }

    /// Copies of the documents, in store order, that carry the given tags and
    /// author; each is checked only when given.
    fn select(&self, tags: Option<&[String]>, author: Option<&str>) -> (r: Vec<Document>)
        ensures
            docs_view(r@) == self@.filter(
                |d: DocView| doc_selected(d, opt_tags_view(tags), opt_str_view(author)),
            ),
    {
        let ghost tv = opt_tags_view(tags);
        let ghost av = opt_str_view(author);
        let ghost keep = |d: DocView| doc_selected(d, tv, av);
        let author_key: Option<String> = match author {
            Some(a) => Some(a.to_owned()),
            None => None,
        };
        let mut out: Vec<Document> = Vec::new();
        let mut i: usize = 0;
        while i < self.docs.len()
            invariant
                i <= self.docs@.len(),
                docs_view(out@) == self@.take(i as int).filter(keep),
                keep == (|d: DocView| doc_selected(d, tv, av)),
                tv == opt_tags_view(tags),
                av == opt_str_view(author),
                opt_string_view(author_key) == av,
            decreases self.docs@.len() - i,
        {
            let d = &self.docs[i];
            let tags_ok = match tags {
                Some(t) => carries_all_tags(d, t),
                None => true,
            };
            let author_ok = match &author_key {
                Some(a) => d.author == *a,
                None => true,
            };
            proof {
                assert(self@.take(i + 1).drop_last() =~= self@.take(i as int));
                assert(self@.take(i + 1).last() == d@);
                assert(keep(d@) == (tags_ok && author_ok));
                let t1 = self@.take(i + 1);
                reveal(Seq::filter);
                assert(t1.filter(keep) == (if keep(t1.last()) {
                    t1.drop_last().filter(keep).push(t1.last())
                } else {
                    t1.drop_last().filter(keep)
                }));
            }
            if tags_ok && author_ok {
                let c = d.duplicate();
                proof {
                    lemma_docs_view_push(out@, c);
                }
                out.push(c);
            }
            i = i + 1;
        }
        assert(self@.take(self@.len() as int) =~= self@);
        out
    }

    /// Copies of the documents that carry every tag of `tags`.
    pub fn filter_by_tags(&self, tags: &[String]) -> (r: Vec<Document>)
        ensures
            docs_view(r@) == self@.filter(|d: DocView| has_all_tags(d, strings_view(tags@))),
    {
        let r = self.select(Some(tags), None);
        assert((|d: DocView| doc_selected(d, opt_tags_view(Some(tags)), opt_str_view(None)))
            =~= (|d: DocView| has_all_tags(d, strings_view(tags@))));
        r
    }

    /// Copies of the documents written by `author`.
    pub fn filter_by_author(&self, author: &str) -> (r: Vec<Document>)
        ensures
            docs_view(r@) == self@.filter(|d: DocView| d.author == author@),
    {
        let r = self.select(None, Some(author));
        assert((|d: DocView| doc_selected(d, opt_tags_view(None), opt_str_view(Some(author))))
            =~= (|d: DocView| d.author == author@));
        r
    }

    /// Copies of the documents written by `author` that carry every tag of `tags`.
    pub fn filter_by_tags_and_author(&self, tags: &[String], author: &str) -> (r: Vec<Document>)
        ensures
            docs_view(r@) == self@.filter(
                |d: DocView| d.author == author@ && has_all_tags(d, strings_view(tags@)),
            ),
    {
        let r = self.select(Some(tags), Some(author));
        assert((|d: DocView| doc_selected(d, opt_tags_view(Some(tags)), opt_str_view(Some(author))))
            =~= (|d: DocView| d.author == author@ && has_all_tags(d, strings_view(tags@))));
        r
    }

    /// Puts `doc` under its id, replacing a document with the same id.
    pub fn insert(&mut self, doc: Document)
        requires
            old(self).wf(),
        ensures
            final(self).wf(),
            final(self)@ == stored_with(old(self)@, doc@),
    {
        match self.find(doc.id.as_str()) {
            Some(i) => {
                let ghost d = doc@;
                self.docs.set(i, doc);
                assert(self@ =~= old(self)@.update(i as int, d));
            },
            None => {
                let ghost d = doc@;
                self.docs.push(doc);
                assert(self@ =~= old(self)@.push(d));
            },
        }
    }

    /// Builds the document for a creation request: a fresh id, the current
    /// time, and the rendering of its body. Which id and time come out is
    /// chance and the clock, so only the id's form is stated.
    pub fn create_from_request(&self, req: CreateDocumentRequest) -> (d: Document)
        ensures
            crate::ids::is_v4_uuid_text(d@.id),
            d@.title == req.title@,
            d@.author == req.author@,
            d@.tags == strings_view(req.tags@),
            d@.content == req.content@,
            d@.html == markdown_html(req.content@),
    {
        let html = markdown_to_html(req.content.as_str());
        let id = crate::ids::new_doc_id();
        let created_at = crate::time::now();
        document_from_request(req, id, created_at, html)
    }

    /// Applies an update request to the document with id `id`, if there is
    /// one, and answers a copy of the result; a new body is rendered anew.
    pub fn update(&mut self, id: &str, req: UpdateDocumentRequest) -> (r: Option<Document>)
        requires
            old(self).wf(),
        ensures
            final(self).wf(),
            match position_of(old(self)@, id@) {
                Some(i) => {
                    let nd = updated_doc(
                        old(self)@[i],
                        match req.title { Some(t) => Some(t@), None => None },
                        match req.author { Some(a) => Some(a@), None => None },
                        match req.tags { Some(t) => Some(strings_view(t@)), None => None },
                        match req.content { Some(c) => Some(c@), None => None },
                    );
                    &&& final(self)@ == old(self)@.update(i, nd)
                    &&& r matches Some(d) && d@ == nd
                },
                None => final(self)@ == old(self)@ && r is None,
            },
    {
        match self.find(id) {
            Some(i) => {
                let mut updated = self.docs[i].duplicate();
                if let Some(title) = req.title {
                    updated.title = title;
                }
                if let Some(author) = req.author {
                    updated.author = author;
                }
                if let Some(tags) = req.tags {
                    updated.tags = tags;
                }
                if let Some(content) = req.content {
                    updated.html = markdown_to_html(content.as_str());
                    updated.content = content;
                }
                let copy = updated.duplicate();
                let ghost nd = updated@;
                self.docs.set(i, updated);
                assert(self@ =~= old(self)@.update(i as int, nd));
                Some(copy)
            },
            None => None,
        }
    }

    /// Removes the document with id `id`; answers whether there was one.
    pub fn delete(&mut self, id: &str) -> (r: bool)
        requires
            old(self).wf(),
        ensures
            final(self).wf(),
            match position_of(old(self)@, id@) {
                Some(i) => r && final(self)@ == old(self)@.remove(i),
                None => !r && final(self)@ == old(self)@,
            },
    {
        match self.find(id) {
            Some(i) => {
                self.docs.remove(i);
                assert(self@ =~= old(self)@.remove(i as int));
                true
            },
            None => false,
        }
    }

    /// The number of documents.
    pub fn len(&self) -> (r: usize)
        ensures
            r == self@.len(),
    {
        self.docs.len()
    }

    /// Whether the store holds no document.
    pub fn is_empty(&self) -> (r: bool)
        ensures
            r == (self@.len() == 0),
    {
        self.docs.len() == 0
    }
}

impl Default for DocumentStore {
    /// An empty store.
    fn default() -> (s: DocumentStore)
        ensures
            s.wf(),
            s@ == Seq::<DocView>::empty(),
    {
        DocumentStore::new()
    }
}

} // verus!
