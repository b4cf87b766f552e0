//! The rules that a request must meet before the service acts on it.
use vstd::prelude::*;
use vstd::string::StringExecFns;
use vstd::utf8::encode_utf8;
use crate::models::{ApiError, CreateDocumentRequest, UpdateDocumentRequest, opt_string_view, strings_view};

verus! {

broadcast use vstd::string::group_string_axioms;

pub const MAX_TITLE_LEN: usize = 100;

pub const MAX_CONTENT_BYTES: usize = 1024 * 1024;

pub const MAX_QUERY_LEN: usize = 200;

/// Some tag before position `j` equals the tag at `j`.
pub open spec fn repeats_earlier(tags: Seq<Seq<char>>, j: int) -> bool {
    exists|i: int| 0 <= i < j && tags[i] == tags[j]
}

/// The first position, among the first `n`, whose tag repeats an earlier one.
pub open spec fn first_repeat_in(tags: Seq<Seq<char>>, n: nat) -> Option<int>
    decreases n,
{
    if n == 0 {
        None
    } else {
        match first_repeat_in(tags, (n - 1) as nat) {
            Some(j) => Some(j),
            None => if repeats_earlier(tags, n - 1) {
                Some(n - 1)
            } else {
                None
            },
        }
    }
}

/// The first position whose tag repeats an earlier one.
pub open spec fn first_repeat(tags: Seq<Seq<char>>) -> Option<int> {
    first_repeat_in(tags, tags.len())
}

/// The error (message, field) of a title, if it breaks a rule.
pub open spec fn title_error(title: Seq<char>) -> Option<(Seq<char>, Seq<char>)> {
    if title.len() == 0 {
        Some(("标题不能为空"@, "title"@))
    } else if title.len() > MAX_TITLE_LEN {
        Some(("标题不能超过 100 字"@, "title"@))
    } else {
        None
    }
}

/// The number of bytes of the UTF-8 encoding of `s`, as `str::len` reports it.
pub open spec fn utf8_len(s: Seq<char>) -> usize {
    encode_utf8(s).len() as usize
}

/// The error (message, field) of a document body, if it breaks a rule.
pub open spec fn content_error(content: Seq<char>) -> Option<(Seq<char>, Seq<char>)> {
    if content.len() == 0 {
        Some(("正文不能为空"@, "content"@))
    } else if utf8_len(content) > MAX_CONTENT_BYTES {
        Some(("正文不能超过 1MB"@, "content"@))
    } else {
        None
    }
}

/// The error (message, field) of a tag list, if a tag repeats.
pub open spec fn tags_error(tags: Seq<Seq<char>>) -> Option<(Seq<char>, Seq<char>)> {
    match first_repeat(tags) {
        Some(j) => Some(("标签重复: "@ + tags[j], "tags"@)),
        None => None,
    }
}

/// The first rule that a creation request breaks, in the order the rules are checked.
pub open spec fn create_error(
    title: Seq<char>,
    author: Seq<char>,
    tags: Seq<Seq<char>>,
    content: Seq<char>,
) -> Option<(Seq<char>, Seq<char>)> {
    if title_error(title) is Some {
        title_error(title)
    } else if author.len() == 0 {
        Some(("作者不能为空"@, "author"@))
    } else if content_error(content) is Some {
        content_error(content)
    } else {
        tags_error(tags)
    }
}

/// The first rule that an update request breaks; absent fields break none.
pub open spec fn update_error(
    title: Option<Seq<char>>,
    tags: Option<Seq<Seq<char>>>,
    content: Option<Seq<char>>,
) -> Option<(Seq<char>, Seq<char>)> {
    if title matches Some(t) && title_error(t) is Some {
        title_error(title->0)
    } else if content matches Some(c) && content_error(c) is Some {
        content_error(content->0)
    } else if tags is Some {
        tags_error(tags->0)
    } else {
        None
    }
}

/// The rule that a search query breaks, if any.
pub open spec fn query_error(q: Seq<char>) -> Option<(Seq<char>, Seq<char>)> {
    if q.len() == 0 {
        Some(("查询不能为空"@, "q"@))
    } else if q.len() > MAX_QUERY_LEN {
        Some(("查询不能超过 200 字符"@, "q"@))
    } else {
        None
    }
}

/// The error view (message, field) of an outcome.
pub open spec fn outcome_matches(r: Result<(), ApiError>, expected: Option<(Seq<char>, Seq<char>)>) -> bool {
    match r {
        Ok(()) => expected is None,
        Err(e) => expected matches Some(p) && e.error@ == p.0 && opt_string_view(e.field) == Some(
            p.1,
        ),
    }
}

/// An error with message `msg` about field `field`.
pub fn api_error(msg: &str, field: &str) -> (e: ApiError)
    ensures
        e.error@ == msg@,
        opt_string_view(e.field) == Some(field@),
{
    ApiError { error: msg.to_owned(), field: Some(field.to_owned()) }
}

fn check_title(title: &String) -> (r: Result<(), ApiError>)
    ensures
        outcome_matches(r, title_error(title@)),
{
    if title.as_str().is_empty() {
        return Err(api_error("标题不能为空", "title"));
    }
    if title.as_str().unicode_len() > MAX_TITLE_LEN {
        return Err(api_error("标题不能超过 100 字", "title"));
    }
    Ok(())
}

fn check_content(content: &String) -> (r: Result<(), ApiError>)
    ensures
        outcome_matches(r, content_error(content@)),
{
    if content.as_str().is_empty() {
        return Err(api_error("正文不能为空", "content"));
    }
    if content.as_str().len() > MAX_CONTENT_BYTES {
        return Err(api_error("正文不能超过 1MB", "content"));
    }
    Ok(())
}

proof fn lemma_first_repeat_prefix(tags: Seq<Seq<char>>, n: nat)
    requires
        n <= tags.len(),
        forall|j: int| 0 <= j < n ==> !repeats_earlier(tags, j),
    ensures
        first_repeat_in(tags, n) is None,
    decreases n,
{
    if n > 0 {
        lemma_first_repeat_prefix(tags, (n - 1) as nat);
    }
}

proof fn lemma_first_repeat_found(tags: Seq<Seq<char>>, n: nat, j: int)
    requires
        0 <= j < n <= tags.len(),
        repeats_earlier(tags, j),
        forall|k: int| 0 <= k < j ==> !repeats_earlier(tags, k),
    ensures
        first_repeat_in(tags, n) == Some(j),
    decreases n,
{
    if n - 1 == j {
        lemma_first_repeat_prefix(tags, j as nat);
    } else {
        lemma_first_repeat_found(tags, (n - 1) as nat, j);
    }
}

fn check_tags(tags: &Vec<String>) -> (r: Result<(), ApiError>)
    ensures
        outcome_matches(r, tags_error(strings_view(tags@))),
{
    let ghost tv = strings_view(tags@);
    let n = tags.len();
    let mut j: usize = 0;
    while j < n
        invariant
            n == tags@.len(),
            tv == strings_view(tags@),
            j <= n,
            forall|k: int| 0 <= k < j ==> !repeats_earlier(tv, k),
        decreases n - j,
    {
        let mut i: usize = 0;
        while i < j
            invariant
                n == tags@.len(),
                tv == strings_view(tags@),
                i <= j < n,
                forall|k: int| 0 <= k < j ==> !repeats_earlier(tv, k),
                forall|k: int| 0 <= k < i ==> tv[k] != tv[j as int],
            decreases j - i,
        {
            proof {
                assert(tv[i as int] == tags@[i as int]@);
                assert(tv[j as int] == tags@[j as int]@);
            }
            if tags[i] == tags[j] {
                proof {
                    assert(repeats_earlier(tv, j as int));
                    lemma_first_repeat_found(tv, tv.len(), j as int);
                }
                let mut msg = "标签重复: ".to_owned();
                msg.append(tags[j].as_str());
                return Err(ApiError { error: msg, field: Some("tags".to_owned()) });
            }
            i = i + 1;
        }
        assert(!repeats_earlier(tv, j as int));
        j = j + 1;
    }
    proof {
        lemma_first_repeat_prefix(tv, tv.len());
    }
    Ok(())
}

/// Checks a creation request; the error names the first rule it breaks.
pub fn validate_create_doc(req: &CreateDocumentRequest) -> (r: Result<(), ApiError>)
    ensures
        outcome_matches(r, create_error(req.title@, req.author@, strings_view(req.tags@), req.content@)),
{
    check_title(&req.title)?;
    if req.author.as_str().is_empty() {
        return Err(api_error("作者不能为空", "author"));
    }
    check_content(&req.content)?;
    check_tags(&req.tags)
}

/// Checks an update request; fields that are absent are not checked.
pub fn validate_update_doc(req: &UpdateDocumentRequest) -> (r: Result<(), ApiError>)
    ensures
        outcome_matches(
            r,
            update_error(
                opt_string_view(req.title),
                match req.tags { Some(t) => Some(strings_view(t@)), None => None },
                opt_string_view(req.content),
            ),
        ),
{
    if let Some(title) = &req.title {
        check_title(title)?;
    }
    if let Some(content) = &req.content {
        check_content(content)?;
    }
    if let Some(tags) = &req.tags {
        check_tags(tags)?;
    }
    Ok(())
}

/// Checks a search query: not empty, and at most `MAX_QUERY_LEN` characters.
pub fn validate_query(query: &str) -> (r: Result<(), ApiError>)
    ensures
        outcome_matches(r, query_error(query@)),
{
    if query.is_empty() {
        return Err(api_error("查询不能为空", "q"));
    }
    if query.unicode_len() > MAX_QUERY_LEN {
        return Err(api_error("查询不能超过 200 字符", "q"));
    }
    Ok(())
}

} // verus!
