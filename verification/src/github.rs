//! Crawling a GitHub repository: which requests are made, how replies are
//! read, and what each page adds to the graph.

use vstd::prelude::*;
use vstd::string::*;
use vstd::utf8::*;

use crate::digits;
use crate::digits::{hex_text, padded_text, usize_text};
use crate::engineering::{EngineeringGraph, GraphView};
use crate::github_data::{Connection, Discussion, Issue, PageInfo, PullRequest, Release};
use crate::github_items::{add_discussion, add_issue, add_pull_request, add_release};
use crate::github_laws;
use crate::hash;
use crate::hash::{hash_more, FNV_OFFSET};
use crate::json;
use crate::json::Scalar;
use crate::text;
use crate::text::{chars_of, concat2, concat3, concat4, concat5, concat6, Separator};

verus! {

/// The text without slashes at its end.
pub open spec fn without_slashes(s: Seq<char>) -> Seq<char>
    decreases s.len(),
{
    if s.len() > 0 && s.last() == '/' {
        without_slashes(s.drop_last())
    } else {
        s
    }
}

/// Whether the text ends in `.git`.
pub open spec fn ends_in_git(s: Seq<char>) -> bool {
    let n = s.len() as int;
    n >= 4 && s[n - 4] == '.' && s[n - 3] == 'g' && s[n - 2] == 'i' && s[n - 1] == 't'
}

/// The text without `.git`, once or repeated, at its end.
pub open spec fn without_git(s: Seq<char>) -> Seq<char>
    decreases s.len(),
{
    if ends_in_git(s) {
        without_git(s.take(s.len() - 4))
    } else {
        s
    }
}

/// The text behind a prefix, if it has the prefix.
pub open spec fn behind(s: Seq<char>, prefix: Seq<char>) -> Option<Seq<char>> {
    if prefix.is_prefix_of(s) {
        Some(s.skip(prefix.len() as int))
    } else {
        None
    }
}

/// The part of a repository's address that names the repository.
pub open spec fn slug(value: Seq<char>) -> Seq<char> {
    let base = without_git(without_slashes(text::trimmed(value)));
    match behind(base, "https://github.com/"@) {
        Some(rest) => rest,
        None => match behind(base, "http://github.com/"@) {
            Some(rest) => rest,
            None => base,
        },
    }
}

/// The owner and the name in a repository's address: exactly two parts,
/// neither empty.
pub open spec fn owner_and_name(value: Seq<char>) -> Option<(Seq<char>, Seq<char>)> {
    let parts = text::pieces(slug(value), Separator::Slash);
    if parts.len() == 2 && parts[0].len() > 0 && parts[1].len() > 0 {
        Some((parts[0], parts[1]))
    } else {
        None
    }
}

fn strip_slashes(s: &str) -> (r: String)
    ensures
        r@ == without_slashes(s@),
{
    let chars = chars_of(s);
    let mut end: usize = chars.len();
    assert(s@.take(s@.len() as int) =~= s@);
    while end > 0 && chars[end - 1] == '/'
        invariant
            chars@ == s@,
            end <= chars.len(),
            without_slashes(s@.take(end as int)) == without_slashes(s@),
        decreases end,
    {
        assert(s@.take(end as int).drop_last() =~= s@.take(end - 1));
        end = end - 1;
    }
    assert(s@.subrange(0, end as int) =~= s@.take(end as int));
    text::string_of(&chars, 0, end)
}

fn strip_git(s: &str) -> (r: String)
    ensures
        r@ == without_git(s@),
{
    let chars = chars_of(s);
    let mut end: usize = chars.len();
    assert(s@.take(s@.len() as int) =~= s@);
    while end >= 4 && chars[end - 4] == '.' && chars[end - 3] == 'g' && chars[end - 2] == 'i'
        && chars[end - 1] == 't'
        invariant
            chars@ == s@,
            end <= chars.len(),
            without_git(s@.take(end as int)) == without_git(s@),
        decreases end,
    {
        assert(s@.take(end as int).take(end - 4) =~= s@.take(end - 4));
        end = end - 4;
    }
    assert(s@.subrange(0, end as int) =~= s@.take(end as int));
    text::string_of(&chars, 0, end)
}

fn strip_start(s: &str, prefix: &str) -> (r: Option<String>)
    ensures
        text::opt_view(r) == behind(s@, prefix@),
{
    if text::starts_with_text(s, prefix) {
        let chars = chars_of(s);
        let from: usize = prefix.unicode_len();
        assert(s@.subrange(from as int, s@.len() as int) =~= s@.skip(from as int));
        Some(text::string_of(&chars, from, chars.len()))
    } else {
        None
    }
}

/// Reads the owner and the name out of a repository's address.
pub fn parse_repository(value: &str) -> (r: Result<(String, String), String>)
    ensures
        match r {
            Ok((owner, name)) => owner_and_name(value@) == Some((owner@, name@)),
            Err(message) => owner_and_name(value@) is None && message@
                == "expected GitHub repository as owner/name, got "@ + text::spec_quoted(value@),
        },
{
    let trimmed = text::trim_text(value);
    let plain = strip_slashes(trimmed.as_str());
    let base = strip_git(plain.as_str());
    let address = match strip_start(base.as_str(), "https://github.com/") {
        Some(rest) => rest,
        None => match strip_start(base.as_str(), "http://github.com/") {
            Some(rest) => rest,
            None => base,
        },
    };
    assert(address@ == slug(value@));
    let parts = text::split_text(address.as_str(), Separator::Slash);
    assert(text::views(parts@).len() == parts@.len());
    if parts.len() == 2 {
        assert(text::views(parts@)[0] == parts@[0]@);
        assert(text::views(parts@)[1] == parts@[1]@);
        if !parts[0].as_str().is_empty() && !parts[1].as_str().is_empty() {
            return Ok((parts[0].clone(), parts[1].clone()));
        }
    }
    let shown = text::quoted(value);
    Err(concat2("expected GitHub repository as owner/name, got ", shown.as_str()))
}

/// The hash that tells requests apart: of the query and of the text of its
/// variables.
pub open spec fn fingerprint(query: Seq<char>, variables: Seq<char>) -> u64 {
    hash::fnv(encode_utf8(query) + encode_utf8(variables))
}

/// Hashes a query and the text of its variables.
pub fn fingerprint_of(query: &str, variables: &str) -> (r: u64)
    ensures
        r == fingerprint(query@, variables@),
{
    let first = query.as_bytes();
    let second = variables.as_bytes();
    assert(first@.subrange(0, first@.len() as int) =~= first@);
    assert(second@.subrange(0, second@.len() as int) =~= second@);
    let half = hash_more(FNV_OFFSET, first, 0, first.len());
    proof {
        hash::law_hash_of_joined(FNV_OFFSET, first@, second@);
    }
    hash_more(half, second, 0, second.len())
}

/// Hashes a query and its variables.
pub fn request_fingerprint(query: &str, variables: &Vec<(String, Scalar)>) -> (r: u64)
    ensures
        r == fingerprint(query@, json::spec_object_text(json::members_view(variables@))),
{
    let written = json::object_text(variables);
    fingerprint_of(query, written.as_str())
}

/// The name of the file that keeps a reply.
pub fn cache_file_name(cache_name: &str, fingerprint: u64) -> (r: String)
    ensures
        r@ == cache_name@ + "-"@ + digits::hex(fingerprint as nat, 16) + ".json"@,
{
    let shown = hex_text(fingerprint, 16);
    concat4(cache_name, "-", shown.as_str(), ".json")
}

/// The name of the file in which a reply is written before it is kept.
pub fn temporary_file_name(cache_name: &str, process: u32) -> (r: String)
    ensures
        r@ == "."@ + cache_name@ + "."@ + digits::decimal(process as nat) + ".tmp"@,
{
    let shown = digits::decimal_text(process as u64);
    concat5(".", cache_name, ".", shown.as_str(), ".tmp")
}

/// The name of the directory for replies where the system has none: after the
/// database's file.
pub fn fallback_cache_name(file_name: Option<&str>) -> (r: String)
    ensures
        r@ == (match file_name {
            Some(name) => name@,
            None => "vecgra"@,
        }) + ".github-cache"@,
{
    match file_name {
        Some(name) => concat2(name, ".github-cache"),
        None => concat2("vecgra", ".github-cache"),
    }
}

/// Whether a refusal may pass: too many requests, or a fault of the server.
pub open spec fn passing(status: u16) -> bool {
    status == 429 || 500 <= status <= 599
}

/// How long to wait before a request is made again, if it is: up to four
/// times, each time twice as long.
pub open spec fn retry_millis(attempt: u32, status: Option<u16>) -> Option<u64> {
    match status {
        Some(code) if passing(code) => if attempt == 0 {
            Some(250u64)
        } else if attempt == 1 {
            Some(500u64)
        } else if attempt == 2 {
            Some(1000u64)
        } else if attempt == 3 {
            Some(2000u64)
        } else {
            None
        },
        _ => None,
    }
}

/// How many milliseconds to wait before a request is made again, if it is.
pub fn retry_delay(attempt: u32, status: Option<u16>) -> (r: Option<u64>)
    ensures
        r == retry_millis(attempt, status),
{
    match status {
        None => None,
        Some(code) => {
            if attempt < 4 && (code == 429 || (500 <= code && code <= 599)) {
                let factor: u64 = if attempt == 0 {
                    1
                } else if attempt == 1 {
                    2
                } else if attempt == 2 {
                    4
                } else {
                    8
                };
                Some(250 * factor)
            } else {
                None
            }
        },
    }
}

/// What to do with a reply that was understood.
#[derive(Debug)]
pub enum Reply<T> {
    Data(T),
    /// The request failed; a kept reply is discarded if `discard` says so.
    Failed { message: String, discard: bool },
}

/// Opens a reply: its errors, or else its data.
pub fn open_envelope<T>(errors: &Vec<String>, data: Option<T>) -> (r: Reply<T>)
    ensures
        match r {
            Reply::Data(d) => errors@.len() == 0 && data == Some(d),
            Reply::Failed { message, discard } => if errors@.len() > 0 {
                discard && message@ == "GitHub GraphQL request failed: "@ + text::joined(
                    text::views(errors@),
                    "; "@,
                )
            } else {
                data is None && !discard && message@
                    == "GitHub GraphQL response did not contain data"@
            },
        },
{
    if errors.len() > 0 {
        let messages = text::join_texts(errors, "; ");
        Reply::Failed {
            message: concat2("GitHub GraphQL request failed: ", messages.as_str()),
            discard: true,
        }
    } else {
        match data {
            Some(d) => Reply::Data(d),
            None => Reply::Failed {
                message: "GitHub GraphQL response did not contain data".to_owned(),
                discard: false,
            },
        }
    }
}

/// What is said of a kept reply that cannot be read.
pub fn unreadable_reply(file: &str, error: &str) -> (r: String)
    ensures
        r@ == "invalid GitHub response "@ + file@ + ": "@ + error@
            + "; discarded it so the crawl can retry"@,
{
    concat5(
        "invalid GitHub response ",
        file,
        ": ",
        error,
        "; discarded it so the crawl can retry",
    )
}

/// What is said of a repository that is not there.
pub fn missing_repository(owner: &str, name: &str) -> (r: String)
    ensures
        r@ == "GitHub repository "@ + owner@ + "/"@ + name@ + " was not found"@,
{
    concat5("GitHub repository ", owner, "/", name, " was not found")
}

/// The position of the first token that is there and not blank.
pub open spec fn first_usable(tokens: Seq<Option<String>>, i: int) -> bool {
    &&& 0 <= i < tokens.len()
    &&& tokens[i] matches Some(t) && !text::is_blank(t@)
    &&& forall|j: int|
        0 <= j < i ==> ((#[trigger] tokens[j]) matches Some(t) ==> text::is_blank(t@))
}

/// The first token that is there and not blank.
pub fn usable_token(tokens: &Vec<Option<String>>) -> (r: Option<String>)
    ensures
        match r {
            Some(token) => exists|i: int|
                first_usable(tokens@, i) && #[trigger] tokens@[i] == Some(token),
            None => forall|j: int|
                0 <= j < tokens@.len() ==> ((#[trigger] tokens@[j]) matches Some(t)
                    ==> text::is_blank(t@)),
        },
{
    let mut i: usize = 0;
    while i < tokens.len()
        invariant
            i <= tokens.len(),
            forall|j: int|
                0 <= j < i ==> ((#[trigger] tokens@[j]) matches Some(t) ==> text::is_blank(t@)),
        decreases tokens.len() - i,
    {
        match &tokens[i] {
            Some(token) => {
                if !text::text_is_blank(token.as_str()) {
                    assert(first_usable(tokens@, i as int));
                    let found = token.clone();
                    assert(tokens@[i as int] == Some(found));
                    return Some(found);
                }
            },
            None => {},
        }
        i = i + 1;
    }
    None
}

/// The token that the GitHub CLI gave.
pub fn cli_token(success: bool, output: &str) -> (r: Result<String, String>)
    ensures
        match r {
            Ok(token) => success && token@ == text::trimmed(output@) && token@.len() > 0,
            Err(message) => if success {
                text::trimmed(output@).len() == 0 && message@
                    == "GitHub authentication returned an empty token"@
            } else {
                message@ == "set GITHUB_TOKEN/GH_TOKEN or run `gh auth login`"@
            },
        },
{
    if !success {
        return Err("set GITHUB_TOKEN/GH_TOKEN or run `gh auth login`".to_owned());
    }
    let token = text::trim_text(output);
    if token.as_str().is_empty() {
        return Err("GitHub authentication returned an empty token".to_owned());
    }
    Ok(token)
}

/// The items of a page: those that were deleted are left out.
pub open spec fn present<T>(items: Seq<Option<T>>) -> Seq<T>
    decreases items.len(),
{
    if items.len() == 0 {
        Seq::empty()
    } else {
        let before = present(items.drop_last());
        match items.last() {
            Some(item) => before.push(item),
            None => before,
        }
    }
}

/// The items of a page that may be absent as a whole or one by one.
pub fn connection_nodes<T>(items: Option<Vec<Option<T>>>) -> (r: Vec<T>)
    ensures
        r@ == (match items {
            Some(list) => present(list@),
            None => Seq::empty(),
        }),
{
    match items {
        None => {
            let r: Vec<T> = Vec::new();
            assert(r@ =~= Seq::<T>::empty());
            r
        },
        Some(list) => {
            let mut backward: Vec<Option<T>> = list;
            let mut turned: Vec<Option<T>> = Vec::new();
            let ghost all = backward@;
            while backward.len() > 0
                invariant
                    backward@.len() + turned@.len() == all.len(),
                    backward@ == all.take(backward@.len() as int),
                    forall|k: int|
                        0 <= k < turned@.len() ==> #[trigger] turned@[k] == all[all.len() - 1 - k],
                decreases backward@.len(),
            {
                let ghost n = backward@.len() as int;
                match backward.pop() {
                    Some(item) => {
                        turned.push(item);
                    },
                    None => {},
                }
                assert(backward@ =~= all.take(n - 1));
            }
            let mut out: Vec<T> = Vec::new();
            assert(all.take(0) =~= Seq::<Option<T>>::empty());
            assert(out@ =~= present(all.take(0)));
            while turned.len() > 0
                invariant
                    turned@.len() <= all.len(),
                    forall|k: int|
                        0 <= k < turned@.len() ==> #[trigger] turned@[k] == all[all.len() - 1 - k],
                    out@ == present(all.take(all.len() - turned@.len())),
                decreases turned@.len(),
            {
                let ghost at = all.len() - turned@.len();
                assert(turned@[turned@.len() - 1] == all[at]);
                assert(all.take(at + 1).drop_last() =~= all.take(at));
                match turned.pop() {
                    Some(entry) => match entry {
                        Some(item) => {
                            out.push(item);
                        },
                        None => {},
                    },
                    None => {},
                }
            }
            assert(all.take(all.len() as int) =~= all);
            out
        },
    }
}

/// What is crawled.
#[derive(Clone, Copy, Debug, PartialEq, Eq, Structural)]
pub enum CrawlKind {
    Issues,
    PullRequests,
    Discussions,
    Releases,
}

impl CrawlKind {
    /// How many items a request asks for at most.
    pub open spec fn spec_page_size(self) -> usize {
        match self {
            CrawlKind::PullRequests => 5,
            _ => 20,
        }
    }

    /// How many items a request asks for at most.
    #[verifier::when_used_as_spec(spec_page_size)]
    pub fn page_size(self) -> (r: usize)
        ensures
            r == self.spec_page_size(),
    {
        match self {
            CrawlKind::PullRequests => 5,
            _ => 20,
        }
    }

    /// What the kept replies are called.
    pub open spec fn spec_stem(self) -> Seq<char> {
        match self {
            CrawlKind::Issues => "issues"@,
            CrawlKind::PullRequests => "pull-requests"@,
            CrawlKind::Discussions => "discussions"@,
            CrawlKind::Releases => "releases"@,
        }
    }

    /// What the kept replies are called.
    pub fn stem(self) -> (r: &'static str)
        ensures
            r@ == self.spec_stem(),
    {
        match self {
            CrawlKind::Issues => "issues",
            CrawlKind::PullRequests => "pull-requests",
            CrawlKind::Discussions => "discussions",
            CrawlKind::Releases => "releases",
        }
    }

    /// What the items are called.
    pub open spec fn spec_noun(self) -> Seq<char> {
        match self {
            CrawlKind::Issues => "issues"@,
            CrawlKind::PullRequests => "pull requests"@,
            CrawlKind::Discussions => "discussions"@,
            CrawlKind::Releases => "releases"@,
        }
    }

    /// What the items are called.
    pub fn noun(self) -> (r: &'static str)
        ensures
            r@ == self.spec_noun(),
    {
        match self {
            CrawlKind::Issues => "issues",
            CrawlKind::PullRequests => "pull requests",
            CrawlKind::Discussions => "discussions",
            CrawlKind::Releases => "releases",
        }
    }

    /// What is said when the repository is gone in the middle of a crawl.
    pub fn disappeared(self) -> (r: String)
        ensures
            r@ == "repository disappeared while crawling "@ + self.spec_noun(),
    {
        concat2("repository disappeared while crawling ", self.noun())
    }
}

/// How far a crawl has come.
#[derive(Debug)]
pub struct Crawl {
    pub kind: CrawlKind,
    pub limit: usize,
    pub imported: usize,
    pub page: usize,
    pub cursor: Option<String>,
    pub finished: bool,
}

/// How far a crawl has come.
pub struct CrawlView {
    pub kind: CrawlKind,
    pub limit: nat,
    pub imported: nat,
    pub page: nat,
    pub cursor: Option<Seq<char>>,
    pub finished: bool,
}

impl View for Crawl {
    type V = CrawlView;

    open spec fn view(&self) -> CrawlView {
        CrawlView {
            kind: self.kind,
            limit: self.limit as nat,
            imported: self.imported as nat,
            page: self.page as nat,
            cursor: text::opt_view(self.cursor),
            finished: self.finished,
        }
    }
}

impl CrawlView {
    /// Every page that was taken had an item.
    pub open spec fn wf(self) -> bool {
        self.page <= self.imported
    }

    /// Whether another page is asked for.
    pub open spec fn goes_on(self) -> bool {
        !self.finished && self.imported < self.limit
    }

    /// How many items the next request asks for.
    pub open spec fn first(self) -> nat {
        if self.kind.page_size() <= self.limit - self.imported {
            self.kind.page_size() as nat
        } else {
            (self.limit - self.imported) as nat
        }
    }

    /// The crawl after a page of `count` items. A page without items ends it,
    /// and so does a last page.
    pub open spec fn after_page(
        self,
        count: nat,
        has_next_page: bool,
        end_cursor: Option<Seq<char>>,
    ) -> CrawlView {
        if count == 0 {
            CrawlView { finished: true, ..self }
        } else if has_next_page {
            CrawlView {
                imported: self.imported + count,
                page: self.page + 1,
                cursor: end_cursor,
                ..self
            }
        } else {
            CrawlView {
                imported: self.imported + count,
                page: self.page + 1,
                finished: true,
                ..self
            }
        }
    }
}

/// What a crawl asks for next.
#[derive(Debug)]
pub struct PageRequest {
    pub cache_name: String,
    pub first: usize,
    pub after: Option<String>,
}

impl Crawl {
    /// A crawl of at most `limit` items.
    pub fn new(kind: CrawlKind, limit: usize) -> (r: Crawl)
        ensures
            r@ == (CrawlView {
                kind,
                limit: limit as nat,
                imported: 0,
                page: 0,
                cursor: None,
                finished: false,
            }),
            r@.wf(),
    {
        Crawl { kind, limit, imported: 0, page: 0, cursor: None, finished: false }
    }

    /// What to ask for next, while the crawl goes on.
    pub fn next_request(&self) -> (r: Option<PageRequest>)
        ensures
            match r {
                Some(request) => {
                    &&& self@.goes_on()
                    &&& request.cache_name@ == self.kind.spec_stem() + "-"@ + digits::padded(
                        self.page as nat,
                        5,
                    )
                    &&& request.first == self@.first()
                    &&& text::opt_view(request.after) == self@.cursor
                },
                None => !self@.goes_on(),
            },
    {
        if self.finished || self.imported >= self.limit {
            return None;
        }
        let number = padded_text(self.page, 5);
        let left: usize = self.limit - self.imported;
        let size: usize = self.kind.page_size();
        Some(
            PageRequest {
                cache_name: concat3(self.kind.stem(), "-", number.as_str()),
                first: if size <= left {
                    size
                } else {
                    left
                },
                after: self.cursor.clone(),
            },
        )
    }

    /// What a poorer request for the same page is called.
    pub fn lite_name(&self) -> (r: String)
        ensures
            r@ == self.kind.spec_stem() + "-lite-"@ + digits::padded(self.page as nat, 5),
    {
        let number = padded_text(self.page, 5);
        concat3(self.kind.stem(), "-lite-", number.as_str())
    }

    /// What is said when a page is asked for again in a poorer shape.
    pub fn lite_notice(&self, error: &str) -> (r: String)
        ensures
            r@ == "rich pull-request page "@ + digits::decimal(self.page as nat) + " failed ("@
                + error@ + "); continuing with its lite shape"@,
    {
        let number = usize_text(self.page);
        concat5(
            "rich pull-request page ",
            number.as_str(),
            " failed (",
            error,
            "); continuing with its lite shape",
        )
    }

    /// Takes note of a page.
    pub fn receive(&mut self, count: usize, info: &PageInfo)
        requires
            old(self)@.wf(),
            old(self).imported + count <= usize::MAX,
        ensures
            final(self)@ == old(self)@.after_page(
                count as nat,
                info.has_next_page,
                text::opt_view(info.end_cursor),
            ),
            final(self)@.wf(),
    {
        if count == 0 {
            self.finished = true;
        } else {
            self.imported = self.imported + count;
            self.page = self.page + 1;
            if info.has_next_page {
                self.cursor = info.end_cursor.clone();
            } else {
                self.finished = true;
            }
        }
    }

    /// What is said after a page: how much of what can be had is there.
    pub fn progress(&self, total_count: usize) -> (r: String)
        ensures
            r@ == "crawled "@ + digits::decimal(self.imported as nat) + "/"@ + digits::decimal(
                if self.limit <= total_count {
                    self.limit as nat
                } else {
                    total_count as nat
                },
            ) + " "@ + self.kind.spec_noun() + (" (repository total "@ + digits::decimal(
                total_count as nat,
            ) + ")"@),
    {
        let done = usize_text(self.imported);
        let goal = usize_text(
            if self.limit <= total_count {
                self.limit
            } else {
                total_count
            },
        );
        let total = usize_text(total_count);
        let head = concat6("crawled ", done.as_str(), "/", goal.as_str(), " ", self.kind.noun());
        let tail = concat3(" (repository total ", total.as_str(), ")");
        concat2(head.as_str(), tail.as_str())
    }
}

/// A crawl whose pages hold no more than was asked for imports no more than
/// its limit, and every page that does not end it brings it nearer.
pub proof fn law_crawl_is_bounded(
    crawl: CrawlView,
    count: nat,
    has_next_page: bool,
    end_cursor: Option<Seq<char>>,
)
    requires
        crawl.wf(),
        crawl.goes_on(),
        count <= crawl.first(),
    ensures
        ({
            let now = crawl.after_page(count, has_next_page, end_cursor);
            &&& now.wf()
            &&& now.imported <= now.limit
            &&& now.limit == crawl.limit
            &&& now.goes_on() ==> now.imported > crawl.imported
        }),
{
}

impl GraphView {
    /// The graph with the first `upto` issues of a page.
    pub open spec fn with_issues(self, repository_key: Seq<char>, issues: Seq<Issue>, upto: nat) -> GraphView
        decreases upto,
    {
        if upto == 0 {
            self
        } else {
            self.with_issues(repository_key, issues, (upto - 1) as nat).with_issue(
                repository_key,
                issues[upto - 1],
                true,
            )
        }
    }

    /// The graph with the first `upto` pull requests of a page.
    pub open spec fn with_pull_requests(
        self,
        repository_key: Seq<char>,
        pull_requests: Seq<PullRequest>,
        complete: bool,
        upto: nat,
    ) -> GraphView
        decreases upto,
    {
        if upto == 0 {
            self
        } else {
            self.with_pull_requests(
                repository_key,
                pull_requests,
                complete,
                (upto - 1) as nat,
            ).with_pull_request(repository_key, pull_requests[upto - 1], complete)
        }
    }

    /// The graph with the first `upto` discussions of a page.
    pub open spec fn with_discussions(
        self,
        repository_key: Seq<char>,
        discussions: Seq<Discussion>,
        upto: nat,
    ) -> GraphView
        decreases upto,
    {
        if upto == 0 {
            self
        } else {
            self.with_discussions(
                repository_key,
                discussions,
                (upto - 1) as nat,
            ).with_discussion(repository_key, discussions[upto - 1])
        }
    }

    /// The graph with the first `upto` releases of a page.
    pub open spec fn with_releases(
        self,
        repository_key: Seq<char>,
        releases: Seq<Release>,
        upto: nat,
    ) -> GraphView
        decreases upto,
    {
        if upto == 0 {
            self
        } else {
            self.with_releases(repository_key, releases, (upto - 1) as nat).with_release(
                repository_key,
                releases[upto - 1],
            )
        }
    }
}

/// Adds a page of issues.
pub fn crawl_issues(
    crawl: &mut Crawl,
    graph: &mut EngineeringGraph,
    repository_key: &str,
    page: &Connection<Issue>,
)
    requires
        old(crawl)@.wf(),
        old(crawl).imported + page.nodes@.len() <= usize::MAX,
        old(graph)@.wf(),
    ensures
        final(crawl)@ == old(crawl)@.after_page(
            page.nodes@.len(),
            page.page_info.has_next_page,
            text::opt_view(page.page_info.end_cursor),
        ),
        final(crawl)@.wf(),
        final(graph)@ == old(graph)@.with_issues(repository_key@, page.nodes@, page.nodes@.len()),
        final(graph)@.wf(),
{
    let ghost base = graph@;
    let mut i: usize = 0;
    while i < page.nodes.len()
        invariant
            i <= page.nodes.len(),
            graph@.wf(),
            graph@ == base.with_issues(repository_key@, page.nodes@, i as nat),
        decreases page.nodes.len() - i,
    {
        add_issue(graph, repository_key, &page.nodes[i], true);
        i = i + 1;
    }
    crawl.receive(page.nodes.len(), &page.page_info);
}

/// Adds a page of pull requests.
pub fn crawl_pull_requests(
    crawl: &mut Crawl,
    graph: &mut EngineeringGraph,
    repository_key: &str,
    page: &Connection<PullRequest>,
    detail_complete: bool,
)
    requires
        old(crawl)@.wf(),
        old(crawl).imported + page.nodes@.len() <= usize::MAX,
        old(graph)@.wf(),
    ensures
        final(crawl)@ == old(crawl)@.after_page(
            page.nodes@.len(),
            page.page_info.has_next_page,
            text::opt_view(page.page_info.end_cursor),
        ),
        final(crawl)@.wf(),
        final(graph)@ == old(graph)@.with_pull_requests(
            repository_key@,
            page.nodes@,
            detail_complete,
            page.nodes@.len(),
        ),
        final(graph)@.wf(),
{
    let ghost base = graph@;
    let mut i: usize = 0;
    while i < page.nodes.len()
        invariant
            i <= page.nodes.len(),
            graph@.wf(),
            graph@ == base.with_pull_requests(
                repository_key@,
                page.nodes@,
                detail_complete,
                i as nat,
            ),
        decreases page.nodes.len() - i,
    {
        add_pull_request(graph, repository_key, &page.nodes[i], detail_complete);
        i = i + 1;
    }
    crawl.receive(page.nodes.len(), &page.page_info);
}

/// Adds a page of discussions.
pub fn crawl_discussions(
    crawl: &mut Crawl,
    graph: &mut EngineeringGraph,
    repository_key: &str,
    page: &Connection<Discussion>,
)
    requires
        old(crawl)@.wf(),
        old(crawl).imported + page.nodes@.len() <= usize::MAX,
        old(graph)@.wf(),
    ensures
        final(crawl)@ == old(crawl)@.after_page(
            page.nodes@.len(),
            page.page_info.has_next_page,
            text::opt_view(page.page_info.end_cursor),
        ),
        final(crawl)@.wf(),
        final(graph)@ == old(graph)@.with_discussions(
            repository_key@,
            page.nodes@,
            page.nodes@.len(),
        ),
        final(graph)@.wf(),
{
    let ghost base = graph@;
    let mut i: usize = 0;
    while i < page.nodes.len()
        invariant
            i <= page.nodes.len(),
            graph@.wf(),
            graph@ == base.with_discussions(repository_key@, page.nodes@, i as nat),
        decreases page.nodes.len() - i,
    {
        add_discussion(graph, repository_key, &page.nodes[i]);
        i = i + 1;
    }
    crawl.receive(page.nodes.len(), &page.page_info);
}

/// Adds a page of releases.
pub fn crawl_releases(
    crawl: &mut Crawl,
    graph: &mut EngineeringGraph,
    repository_key: &str,
    page: &Connection<Release>,
)
    requires
        old(crawl)@.wf(),
        old(crawl).imported + page.nodes@.len() <= usize::MAX,
        old(graph)@.wf(),
    ensures
        final(crawl)@ == old(crawl)@.after_page(
            page.nodes@.len(),
            page.page_info.has_next_page,
            text::opt_view(page.page_info.end_cursor),
        ),
        final(crawl)@.wf(),
        final(graph)@ == old(graph)@.with_releases(
            repository_key@,
            page.nodes@,
            page.nodes@.len(),
        ),
        final(graph)@.wf(),
{
    let ghost base = graph@;
    let mut i: usize = 0;
    while i < page.nodes.len()
        invariant
            i <= page.nodes.len(),
            graph@.wf(),
            graph@ == base.with_releases(repository_key@, page.nodes@, i as nat),
        decreases page.nodes.len() - i,
    {
        add_release(graph, repository_key, &page.nodes[i]);
        i = i + 1;
    }
    crawl.receive(page.nodes.len(), &page.page_info);
}

/// A page of issues keeps every node and leaves no relationship without its
/// nodes.
pub proof fn law_issue_page_is_linked(
    g: GraphView,
    repository_key: Seq<char>,
    issues: Seq<Issue>,
    upto: nat,
)
    requires
        g.closed(),
        g.keys.contains(repository_key),
    ensures
        github_laws::safely(g, g.with_issues(repository_key, issues, upto)),
    decreases upto,
{
    if upto > 0 {
        law_issue_page_is_linked(g, repository_key, issues, (upto - 1) as nat);
        let before = g.with_issues(repository_key, issues, (upto - 1) as nat);
        github_laws::law_issue_is_linked(before, repository_key, issues[upto - 1], true);
    }
}

/// A page of pull requests keeps every node and leaves no relationship
/// without its nodes.
pub proof fn law_pull_request_page_is_linked(
    g: GraphView,
    repository_key: Seq<char>,
    pull_requests: Seq<PullRequest>,
    complete: bool,
    upto: nat,
)
    requires
        g.closed(),
        g.keys.contains(repository_key),
    ensures
        github_laws::safely(
            g,
            g.with_pull_requests(repository_key, pull_requests, complete, upto),
        ),
    decreases upto,
{
    if upto > 0 {
        let before = g.with_pull_requests(
            repository_key,
            pull_requests,
            complete,
            (upto - 1) as nat,
        );
        law_pull_request_page_is_linked(
            g,
            repository_key,
            pull_requests,
            complete,
            (upto - 1) as nat,
        );
        github_laws::law_pull_request_is_linked(
            before,
            repository_key,
            pull_requests[upto - 1],
            complete,
        );
    }
}

/// A page of discussions keeps every node and leaves no relationship without
/// its nodes.
pub proof fn law_discussion_page_is_linked(
    g: GraphView,
    repository_key: Seq<char>,
    discussions: Seq<Discussion>,
    upto: nat,
)
    requires
        g.closed(),
        g.keys.contains(repository_key),
    ensures
        github_laws::safely(g, g.with_discussions(repository_key, discussions, upto)),
    decreases upto,
{
    if upto > 0 {
        law_discussion_page_is_linked(g, repository_key, discussions, (upto - 1) as nat);
        let before = g.with_discussions(repository_key, discussions, (upto - 1) as nat);
        github_laws::law_discussion_is_linked(before, repository_key, discussions[upto - 1]);
    }
}

/// A page of releases keeps every node and leaves no relationship without its
/// nodes.
pub proof fn law_release_page_is_linked(
    g: GraphView,
    repository_key: Seq<char>,
    releases: Seq<Release>,
    upto: nat,
)
    requires
        g.closed(),
        g.keys.contains(repository_key),
    ensures
        github_laws::safely(g, g.with_releases(repository_key, releases, upto)),
    decreases upto,
{
    if upto > 0 {
        law_release_page_is_linked(g, repository_key, releases, (upto - 1) as nat);
        let before = g.with_releases(repository_key, releases, (upto - 1) as nat);
        github_laws::law_release_is_linked(before, repository_key, releases[upto - 1]);
    }
}

} // verus!
