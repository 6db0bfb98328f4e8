//! Issues, pull requests, discussions and releases in the engineering graph.

use vstd::prelude::*;
use vstd::string::*;

use crate::digits::signed_text;
use crate::engineering;
use crate::engineering::{EngineeringGraph, Field, GraphNode, GraphNodeView, GraphView};
use crate::fields;
use crate::fields::{
    as_slice, push_datetime, short_oid, stored_text, string_value, text_or_empty,
    title_body_embeddings,
};
use crate::github_data::{
    ChangedFile, Comment, Discussion, DiscussionCategory, Issue, PullRequest, PullRequestCommit,
    Release, Review, TagCommit,
};
use crate::github_model;
use crate::github_model::{
    add_assignees, add_author, add_comment, add_comments, add_commit, add_file, add_review,
    add_taxonomy, comment_key, commit_key, discussion_key, issue_key, no_fields, one_text,
    pull_request_key, release_key,
};
use crate::graph::{Value, ValueView};
use crate::text;
use crate::text::{concat2, concat4, concat6};

verus! {

/// What issues and pull requests have in common.
pub struct ContentFields<'a> {
    pub id: &'a str,
    pub number: i64,
    pub title: &'a str,
    pub body: &'a str,
    pub url: &'a str,
    pub state: &'a str,
    pub created_at: &'a str,
    pub updated_at: &'a str,
    pub closed_at: Option<&'a str>,
}

/// The contents of what issues and pull requests have in common.
pub struct ContentView {
    pub id: Seq<char>,
    pub number: i64,
    pub title: Seq<char>,
    pub body: Seq<char>,
    pub url: Seq<char>,
    pub state: Seq<char>,
    pub created_at: Seq<char>,
    pub updated_at: Seq<char>,
    pub closed_at: Option<Seq<char>>,
}

impl<'a> View for ContentFields<'a> {
    type V = ContentView;

    open spec fn view(&self) -> ContentView {
        ContentView {
            id: self.id@,
            number: self.number,
            title: self.title@,
            body: self.body@,
            url: self.url@,
            state: self.state@,
            created_at: self.created_at@,
            updated_at: self.updated_at@,
            closed_at: text::opt_str_view(self.closed_at),
        }
    }
}

/// The properties of an issue or a pull request, without its times.
pub open spec fn content_base(content: ContentView) -> Seq<(Seq<char>, ValueView)> {
    seq![
        github_model::text_field("external_id"@, content.id),
        github_model::int_field("number"@, content.number),
        github_model::text_field("title"@, content.title),
        github_model::text_field("body"@, fields::stored(content.body)),
        github_model::text_field("url"@, content.url),
        github_model::text_field("state"@, content.state),
    ]
}

fn content_fields(content: &ContentFields<'_>) -> (r: Vec<Field>)
    ensures
        engineering::fields_view(r@) == content_base(content@),
{
    let mut out: Vec<Field> = Vec::new();
    out.push(("external_id", string_value(content.id)));
    out.push(("number", Value::Int(content.number)));
    out.push(("title", string_value(content.title)));
    out.push(("body", string_value(stored_text(content.body).as_str())));
    out.push(("url", string_value(content.url)));
    out.push(("state", string_value(content.state)));
    assert(engineering::fields_view(out@) =~= content_base(content@));
    out
}

/// The properties of an issue or a pull request.
pub open spec fn content_view(content: ContentView) -> Seq<(Seq<char>, ValueView)> {
    let created = fields::with_time(
        content_base(content),
        "created_at"@,
        "created_at_ms"@,
        Some(content.created_at),
    );
    let updated = fields::with_time(
        created,
        "updated_at"@,
        "updated_at_ms"@,
        Some(content.updated_at),
    );
    fields::with_time(updated, "closed_at"@, "closed_at_ms"@, content.closed_at)
}

/// The properties of an issue or a pull request.
pub fn content_properties(content: &ContentFields<'_>) -> (r: Vec<Field>)
    ensures
        engineering::fields_view(r@) == content_view(content@),
{
    let mut properties = content_fields(content);
    push_datetime(&mut properties, "created_at", "created_at_ms", Some(content.created_at));
    push_datetime(&mut properties, "updated_at", "updated_at_ms", Some(content.updated_at));
    push_datetime(&mut properties, "closed_at", "closed_at_ms", content.closed_at);
    properties
}

/// How good a record is: what only refers to an item is poorer than the item.
pub open spec fn detail_rank(complete: bool) -> u8 {
    if complete {
        3
    } else {
        1
    }
}

fn rank_of(complete: bool) -> (r: u8)
    ensures
        r == detail_rank(complete),
{
    if complete {
        3
    } else {
        1
    }
}

/// What an issue has in common with a pull request.
pub open spec fn issue_content(issue: Issue) -> ContentView {
    ContentView {
        id: issue.id@,
        number: issue.number,
        title: issue.title@,
        body: issue.body_text@,
        url: issue.url@,
        state: issue.state@,
        created_at: issue.created_at@,
        updated_at: issue.updated_at@,
        closed_at: text::opt_view(issue.closed_at),
    }
}

/// The node of an issue.
pub open spec fn issue_view(issue: Issue, complete: bool) -> GraphNodeView {
    engineering::node_of(
        "Issue"@,
        content_view(issue_content(issue)).push(
            github_model::int_field("comment_total"@, issue.comments.total_count as i64),
        ).push(github_model::bool_field("detail_complete"@, complete)),
        fields::title_body("GitHub issue"@, issue.title@, issue.body_text@),
        "issue #"@ + github_model::num(issue.number) + " "@ + issue.title@,
    )
}

fn push_field(properties: &mut Vec<Field>, key: &'static str, value: Value)
    ensures
        engineering::fields_view(final(properties)@) == engineering::fields_view(
            old(properties)@,
        ).push((key@, value@)),
{
    let ghost before = engineering::fields_view(properties@);
    let ghost view = value@;
    properties.push((key, value));
    assert(engineering::fields_view(properties@) =~= before.push((key@, view)));
}

fn issue_node(issue: &Issue, complete: bool) -> (r: GraphNode)
    ensures
        r@ == issue_view(*issue, complete),
{
    let content = ContentFields {
        id: issue.id.as_str(),
        number: issue.number,
        title: issue.title.as_str(),
        body: issue.body_text.as_str(),
        url: issue.url.as_str(),
        state: issue.state.as_str(),
        created_at: issue.created_at.as_str(),
        updated_at: issue.updated_at.as_str(),
        closed_at: as_slice(&issue.closed_at),
    };
    assert(content@ == issue_content(*issue));
    let mut properties = content_properties(&content);
    push_field(&mut properties, "comment_total", Value::Int(issue.comments.total_count as i64));
    push_field(&mut properties, "detail_complete", Value::Bool(complete));
    let texts = title_body_embeddings(
        "GitHub issue",
        issue.title.as_str(),
        issue.body_text.as_str(),
    );
    let number = signed_text(issue.number);
    GraphNode::new(
        "Issue",
        properties,
        texts,
        concat4("issue #", number.as_str(), " ", issue.title.as_str()),
    )
}

/// What a pull request has in common with an issue.
pub open spec fn pull_request_content(pull_request: PullRequest) -> ContentView {
    ContentView {
        id: pull_request.id@,
        number: pull_request.number,
        title: pull_request.title@,
        body: pull_request.body_text@,
        url: pull_request.url@,
        state: pull_request.state@,
        created_at: pull_request.created_at@,
        updated_at: pull_request.updated_at@,
        closed_at: text::opt_view(pull_request.closed_at),
    }
}

/// The properties that only a pull request has.
pub open spec fn pull_request_base(pull_request: PullRequest, complete: bool) -> Seq<
    (Seq<char>, ValueView),
> {
    seq![
        github_model::bool_field("detail_complete"@, complete),
        github_model::bool_field("draft"@, pull_request.is_draft),
        github_model::bool_field("merged"@, pull_request.merged),
        github_model::int_field("additions"@, pull_request.additions),
        github_model::int_field("deletions"@, pull_request.deletions),
        github_model::int_field("changed_files"@, pull_request.changed_files),
        github_model::text_field("base_ref"@, pull_request.base_ref_name@),
        github_model::text_field("head_ref"@, pull_request.head_ref_name@),
        github_model::int_field("comment_total"@, pull_request.comments.total_count as i64),
        github_model::int_field("review_total"@, pull_request.reviews.total_count as i64),
        github_model::int_field("commit_total"@, pull_request.commits.total_count as i64),
        github_model::int_field("file_total"@, pull_request.files.total_count as i64),
    ]
}

/// The node of a pull request.
pub open spec fn pull_request_view(pull_request: PullRequest, complete: bool) -> GraphNodeView {
    engineering::node_of(
        "PullRequest"@,
        fields::with_time(
            content_view(pull_request_content(pull_request)) + pull_request_base(
                pull_request,
                complete,
            ),
            "merged_at"@,
            "merged_at_ms"@,
            text::opt_view(pull_request.merged_at),
        ),
        fields::title_body(
            "GitHub pull request"@,
            pull_request.title@,
            pull_request.body_text@,
        ),
        "pull request #"@ + github_model::num(pull_request.number) + " "@ + pull_request.title@,
    )
}

fn pull_request_node(pull_request: &PullRequest, complete: bool) -> (r: GraphNode)
    ensures
        r@ == pull_request_view(*pull_request, complete),
{
    let content = ContentFields {
        id: pull_request.id.as_str(),
        number: pull_request.number,
        title: pull_request.title.as_str(),
        body: pull_request.body_text.as_str(),
        url: pull_request.url.as_str(),
        state: pull_request.state.as_str(),
        created_at: pull_request.created_at.as_str(),
        updated_at: pull_request.updated_at.as_str(),
        closed_at: as_slice(&pull_request.closed_at),
    };
    assert(content@ == pull_request_content(*pull_request));
    let mut properties = content_properties(&content);
    push_field(&mut properties, "detail_complete", Value::Bool(complete));
    push_field(&mut properties, "draft", Value::Bool(pull_request.is_draft));
    push_field(&mut properties, "merged", Value::Bool(pull_request.merged));
    push_field(&mut properties, "additions", Value::Int(pull_request.additions));
    push_field(&mut properties, "deletions", Value::Int(pull_request.deletions));
    push_field(&mut properties, "changed_files", Value::Int(pull_request.changed_files));
    push_field(&mut properties, "base_ref", string_value(pull_request.base_ref_name.as_str()));
    push_field(&mut properties, "head_ref", string_value(pull_request.head_ref_name.as_str()));
    push_field(&mut properties, "comment_total", Value::Int(pull_request.comments.total_count as i64));
    push_field(&mut properties, "review_total", Value::Int(pull_request.reviews.total_count as i64));
    push_field(&mut properties, "commit_total", Value::Int(pull_request.commits.total_count as i64));
    push_field(&mut properties, "file_total", Value::Int(pull_request.files.total_count as i64));
    assert(engineering::fields_view(properties@) =~= content_view(
        pull_request_content(*pull_request),
    ) + pull_request_base(*pull_request, complete));
    push_datetime(
        &mut properties,
        "merged_at",
        "merged_at_ms",
        as_slice(&pull_request.merged_at),
    );
    let texts = title_body_embeddings(
        "GitHub pull request",
        pull_request.title.as_str(),
        pull_request.body_text.as_str(),
    );
    let number = signed_text(pull_request.number);
    GraphNode::new(
        "PullRequest",
        properties,
        texts,
        concat4("pull request #", number.as_str(), " ", pull_request.title.as_str()),
    )
}

/// What says that a pull request closes an issue.
pub open spec fn closes_text(pull_request: i64, issue: i64, title: Seq<char>) -> Seq<char> {
    "Pull request #"@ + github_model::num(pull_request) + " closes issue #"@ + github_model::num(
        issue,
    ) + ": "@ + title
}

fn closes_line(pull_request: i64, issue: i64, title: &str) -> (r: String)
    ensures
        r@ == closes_text(pull_request, issue, title@),
{
    let first = signed_text(pull_request);
    let second = signed_text(issue);
    concat6("Pull request #", first.as_str(), " closes issue #", second.as_str(), ": ", title)
}

impl GraphView {
    /// The graph with an issue and everything on it but the pull requests
    /// that close it.
    #[verifier::opaque]
    pub open spec fn with_issue_alone(
        self,
        repository_key: Seq<char>,
        issue: Issue,
        complete: bool,
    ) -> GraphView {
        let key = "issue:"@ + issue.id@;
        let number = github_model::num(issue.number);
        self.with_node(key, issue_view(issue, complete), detail_rank(complete)).with_edge(
            repository_key,
            key,
            "HAS_ISSUE"@,
            Seq::empty(),
            "Repository contains GitHub issue #"@ + number + ": "@ + issue.title@,
        ).with_author(issue.author, key, "issue #"@ + number).with_taxonomy(
            repository_key,
            key,
            issue.labels.nodes@,
            issue.milestone,
        ).with_assignees(
            key,
            issue.assignees.nodes@,
            "issue #"@ + number,
            issue.assignees.nodes@.len(),
        ).with_comments(
            key,
            issue.comments.nodes@,
            "IssueComment"@,
            "COMMENTS_ON"@,
            issue.comments.nodes@.len(),
        )
    }

    /// The graph with an issue, everything on it, and the pull requests that
    /// close it, as far as the issue tells of them.
    pub open spec fn with_issue(
        self,
        repository_key: Seq<char>,
        issue: Issue,
        complete: bool,
    ) -> GraphView
        decreases issue, 1int, 0int,
    {
        self.with_issue_alone(repository_key, issue, complete).with_closers(
            repository_key,
            issue,
            issue.closed_by_pull_requests@.len() as int,
        )
    }

    /// The graph with the first `upto` pull requests that close an issue.
    pub open spec fn with_closers(self, repository_key: Seq<char>, issue: Issue, upto: int) -> GraphView
        decreases issue, 0int, upto,
    {
        if upto <= 0 || upto > issue.closed_by_pull_requests@.len() {
            self
        } else {
            let pull_request = issue.closed_by_pull_requests@[upto - 1];
            self.with_closers(repository_key, issue, upto - 1).with_pull_request(
                repository_key,
                pull_request,
                false,
            ).with_edge(
                "pull-request:"@ + pull_request.id@,
                "issue:"@ + issue.id@,
                "CLOSES"@,
                Seq::empty(),
                closes_text(pull_request.number, issue.number, issue.title@),
            )
        }
    }

    /// The graph with a pull request and everything on it but the issues that
    /// it closes.
    #[verifier::opaque]
    pub open spec fn with_pull_request_alone(
        self,
        repository_key: Seq<char>,
        pull_request: PullRequest,
        complete: bool,
    ) -> GraphView {
        let key = "pull-request:"@ + pull_request.id@;
        let number = github_model::num(pull_request.number);
        self.with_node(
            key,
            pull_request_view(pull_request, complete),
            detail_rank(complete),
        ).with_edge(
            repository_key,
            key,
            "HAS_PULL_REQUEST"@,
            Seq::empty(),
            "Repository contains GitHub pull request #"@ + number + ": "@ + pull_request.title@,
        ).with_author(pull_request.author, key, "pull request #"@ + number).with_taxonomy(
            repository_key,
            key,
            pull_request.labels.nodes@,
            pull_request.milestone,
        ).with_assignees(
            key,
            pull_request.assignees.nodes@,
            "pull request #"@ + number,
            pull_request.assignees.nodes@.len(),
        ).with_comments(
            key,
            pull_request.comments.nodes@,
            "PullRequestComment"@,
            "COMMENTS_ON"@,
            pull_request.comments.nodes@.len(),
        ).with_reviews(
            key,
            pull_request.number,
            pull_request.reviews.nodes@,
            pull_request.reviews.nodes@.len(),
        ).with_commits(
            key,
            pull_request.number,
            pull_request.commits.nodes@,
            pull_request.commits.nodes@.len(),
        ).with_files(
            repository_key,
            key,
            pull_request.number,
            pull_request.files.nodes@,
            pull_request.files.nodes@.len(),
        )
    }

    /// The graph with a pull request, everything on it, and the issues that it
    /// closes, as far as it tells of them.
    pub open spec fn with_pull_request(
        self,
        repository_key: Seq<char>,
        pull_request: PullRequest,
        complete: bool,
    ) -> GraphView
        decreases pull_request, 1int, 0int,
    {
        self.with_pull_request_alone(repository_key, pull_request, complete).with_closed(
            repository_key,
            pull_request,
            pull_request.closing_issues@.len() as int,
        )
    }

    /// The graph with the first `upto` issues that a pull request closes.
    pub open spec fn with_closed(
        self,
        repository_key: Seq<char>,
        pull_request: PullRequest,
        upto: int,
    ) -> GraphView
        decreases pull_request, 0int, upto,
    {
        if upto <= 0 || upto > pull_request.closing_issues@.len() {
            self
        } else {
            let issue = pull_request.closing_issues@[upto - 1];
            self.with_closed(repository_key, pull_request, upto - 1).with_issue(
                repository_key,
                issue,
                false,
            ).with_edge(
                "pull-request:"@ + pull_request.id@,
                "issue:"@ + issue.id@,
                "CLOSES"@,
                Seq::empty(),
                closes_text(pull_request.number, issue.number, issue.title@),
            )
        }
    }
}

fn add_issue_alone(
    graph: &mut EngineeringGraph,
    repository_key: &str,
    issue: &Issue,
    complete: bool,
)
    requires
        old(graph)@.wf(),
    ensures
        final(graph)@ == old(graph)@.with_issue_alone(repository_key@, *issue, complete),
        final(graph)@.wf(),
{
    reveal(GraphView::with_issue_alone);
    let key = issue_key(issue.id.as_str());
    graph.upsert_node(key.clone(), issue_node(issue, complete), rank_of(complete));
    let number = signed_text(issue.number);
    graph.add_edge(
        repository_key,
        key.as_str(),
        "HAS_ISSUE",
        no_fields(),
        concat4(
            "Repository contains GitHub issue #",
            number.as_str(),
            ": ",
            issue.title.as_str(),
        ),
    );
    let what = concat2("issue #", number.as_str());
    add_author(graph, &issue.author, key.as_str(), what.as_str());
    add_taxonomy(graph, repository_key, key.as_str(), &issue.labels.nodes, &issue.milestone);
    add_assignees(graph, key.as_str(), &issue.assignees.nodes, what.as_str());
    add_comments(graph, key.as_str(), &issue.comments.nodes, "IssueComment", "COMMENTS_ON");
}

/// Adds an issue, everything on it, and the pull requests that close it.
pub fn add_issue(
    graph: &mut EngineeringGraph,
    repository_key: &str,
    issue: &Issue,
    complete: bool,
)
    requires
        old(graph)@.wf(),
    ensures
        final(graph)@ == old(graph)@.with_issue(repository_key@, *issue, complete),
        final(graph)@.wf(),
    decreases *issue, 1int,
{
    add_issue_alone(graph, repository_key, issue, complete);
    let ghost base = graph@;
    let key = issue_key(issue.id.as_str());
    let mut i: usize = 0;
    while i < issue.closed_by_pull_requests.len()
        invariant
            i <= issue.closed_by_pull_requests.len(),
            key@ == "issue:"@ + issue.id@,
            graph@.wf(),
            graph@ == base.with_closers(repository_key@, *issue, i as int),
        decreases issue.closed_by_pull_requests.len() - i,
    {
        let pull_request = &issue.closed_by_pull_requests[i];
        assert(decreases_to!(*issue => issue.closed_by_pull_requests@[i as int]));
        add_pull_request(graph, repository_key, pull_request, false);
        let pull_key = pull_request_key(pull_request.id.as_str());
        graph.add_edge(
            pull_key.as_str(),
            key.as_str(),
            "CLOSES",
            no_fields(),
            closes_line(pull_request.number, issue.number, issue.title.as_str()),
        );
        i = i + 1;
    }
}

fn add_pull_request_alone(
    graph: &mut EngineeringGraph,
    repository_key: &str,
    pull_request: &PullRequest,
    complete: bool,
)
    requires
        old(graph)@.wf(),
    ensures
        final(graph)@ == old(graph)@.with_pull_request_alone(
            repository_key@,
            *pull_request,
            complete,
        ),
        final(graph)@.wf(),
{
    reveal(GraphView::with_pull_request_alone);
    let key = pull_request_key(pull_request.id.as_str());
    graph.upsert_node(key.clone(), pull_request_node(pull_request, complete), rank_of(complete));
    let number = signed_text(pull_request.number);
    graph.add_edge(
        repository_key,
        key.as_str(),
        "HAS_PULL_REQUEST",
        no_fields(),
        concat4(
            "Repository contains GitHub pull request #",
            number.as_str(),
            ": ",
            pull_request.title.as_str(),
        ),
    );
    let what = concat2("pull request #", number.as_str());
    add_author(graph, &pull_request.author, key.as_str(), what.as_str());
    add_taxonomy(
        graph,
        repository_key,
        key.as_str(),
        &pull_request.labels.nodes,
        &pull_request.milestone,
    );
    add_assignees(graph, key.as_str(), &pull_request.assignees.nodes, what.as_str());
    add_comments(
        graph,
        key.as_str(),
        &pull_request.comments.nodes,
        "PullRequestComment",
        "COMMENTS_ON",
    );
    add_reviews(graph, key.as_str(), pull_request.number, &pull_request.reviews.nodes);
    add_commits(graph, key.as_str(), pull_request.number, &pull_request.commits.nodes);
    add_files(
        graph,
        repository_key,
        key.as_str(),
        pull_request.number,
        &pull_request.files.nodes,
    );
}

fn add_reviews(graph: &mut EngineeringGraph, key: &str, number: i64, reviews: &Vec<Review>)
    requires
        old(graph)@.wf(),
    ensures
        final(graph)@ == old(graph)@.with_reviews(key@, number, reviews@, reviews@.len()),
        final(graph)@.wf(),
{
    let ghost base = graph@;
    let mut i: usize = 0;
    while i < reviews.len()
        invariant
            i <= reviews.len(),
            graph@.wf(),
            graph@ == base.with_reviews(key@, number, reviews@, i as nat),
        decreases reviews.len() - i,
    {
        add_review(graph, key, number, &reviews[i]);
        i = i + 1;
    }
}

fn add_commits(
    graph: &mut EngineeringGraph,
    key: &str,
    number: i64,
    commits: &Vec<PullRequestCommit>,
)
    requires
        old(graph)@.wf(),
    ensures
        final(graph)@ == old(graph)@.with_commits(key@, number, commits@, commits@.len()),
        final(graph)@.wf(),
{
    let ghost base = graph@;
    let mut i: usize = 0;
    while i < commits.len()
        invariant
            i <= commits.len(),
            graph@.wf(),
            graph@ == base.with_commits(key@, number, commits@, i as nat),
        decreases commits.len() - i,
    {
        add_commit(graph, key, number, &commits[i].commit, true);
        i = i + 1;
    }
}

fn add_files(
    graph: &mut EngineeringGraph,
    repository_key: &str,
    key: &str,
    number: i64,
    files: &Vec<ChangedFile>,
)
    requires
        old(graph)@.wf(),
    ensures
        final(graph)@ == old(graph)@.with_files(
            repository_key@,
            key@,
            number,
            files@,
            files@.len(),
        ),
        final(graph)@.wf(),
{
    let ghost base = graph@;
    let mut i: usize = 0;
    while i < files.len()
        invariant
            i <= files.len(),
            graph@.wf(),
            graph@ == base.with_files(repository_key@, key@, number, files@, i as nat),
        decreases files.len() - i,
    {
        add_file(graph, repository_key, key, number, &files[i]);
        i = i + 1;
    }
}

/// Adds a pull request, everything on it, and the issues that it closes.
pub fn add_pull_request(
    graph: &mut EngineeringGraph,
    repository_key: &str,
    pull_request: &PullRequest,
    complete: bool,
)
    requires
        old(graph)@.wf(),
    ensures
        final(graph)@ == old(graph)@.with_pull_request(repository_key@, *pull_request, complete),
        final(graph)@.wf(),
    decreases *pull_request, 1int,
{
    add_pull_request_alone(graph, repository_key, pull_request, complete);
    let ghost base = graph@;
    let key = pull_request_key(pull_request.id.as_str());
    let mut i: usize = 0;
    while i < pull_request.closing_issues.len()
        invariant
            i <= pull_request.closing_issues.len(),
            key@ == "pull-request:"@ + pull_request.id@,
            graph@.wf(),
            graph@ == base.with_closed(repository_key@, *pull_request, i as int),
        decreases pull_request.closing_issues.len() - i,
    {
        let issue = &pull_request.closing_issues[i];
        assert(decreases_to!(*pull_request => pull_request.closing_issues@[i as int]));
        add_issue(graph, repository_key, issue, false);
        let target = issue_key(issue.id.as_str());
        graph.add_edge(
            key.as_str(),
            target.as_str(),
            "CLOSES",
            no_fields(),
            closes_line(pull_request.number, issue.number, issue.title.as_str()),
        );
        i = i + 1;
    }
}

/// The properties that every discussion has.
pub open spec fn discussion_base(discussion: Discussion) -> Seq<(Seq<char>, ValueView)> {
    seq![
        github_model::text_field("external_id"@, discussion.id@),
        github_model::int_field("number"@, discussion.number),
        github_model::text_field("title"@, discussion.title@),
        github_model::text_field("body"@, fields::stored(discussion.body_text@)),
        github_model::text_field("url"@, discussion.url@),
        github_model::bool_field("closed"@, discussion.closed),
        github_model::bool_field("locked"@, discussion.locked),
        github_model::int_field("comment_total"@, discussion.comments.total_count as i64),
    ]
}

fn discussion_fields(discussion: &Discussion) -> (r: Vec<Field>)
    ensures
        engineering::fields_view(r@) == discussion_base(*discussion),
{
    let mut out: Vec<Field> = Vec::new();
    out.push(("external_id", string_value(discussion.id.as_str())));
    out.push(("number", Value::Int(discussion.number)));
    out.push(("title", string_value(discussion.title.as_str())));
    out.push(("body", string_value(stored_text(discussion.body_text.as_str()).as_str())));
    out.push(("url", string_value(discussion.url.as_str())));
    out.push(("closed", Value::Bool(discussion.closed)));
    out.push(("locked", Value::Bool(discussion.locked)));
    out.push(("comment_total", Value::Int(discussion.comments.total_count as i64)));
    assert(engineering::fields_view(out@) =~= discussion_base(*discussion));
    out
}

/// The properties of a category of discussions.
pub open spec fn category_base(category: DiscussionCategory) -> Seq<(Seq<char>, ValueView)> {
    seq![
        github_model::text_field("external_id"@, category.id@),
        github_model::text_field("name"@, category.name@),
        github_model::text_field("emoji"@, category.emoji@),
        github_model::text_field("description"@, fields::or_empty(category.description)),
    ]
}

fn category_fields(category: &DiscussionCategory) -> (r: Vec<Field>)
    ensures
        engineering::fields_view(r@) == category_base(*category),
{
    let mut out: Vec<Field> = Vec::new();
    out.push(("external_id", string_value(category.id.as_str())));
    out.push(("name", string_value(category.name.as_str())));
    out.push(("emoji", string_value(category.emoji.as_str())));
    out.push(("description", string_value(text_or_empty(&category.description).as_str())));
    assert(engineering::fields_view(out@) =~= category_base(*category));
    out
}

/// The node of a discussion.
pub open spec fn discussion_view(discussion: Discussion) -> GraphNodeView {
    let created = fields::with_time(
        discussion_base(discussion),
        "created_at"@,
        "created_at_ms"@,
        Some(discussion.created_at@),
    );
    engineering::node_of(
        "Discussion"@,
        fields::with_time(
            created,
            "updated_at"@,
            "updated_at_ms"@,
            Some(discussion.updated_at@),
        ),
        fields::title_body("GitHub discussion"@, discussion.title@, discussion.body_text@),
        "discussion #"@ + github_model::num(discussion.number) + " "@ + discussion.title@,
    )
}

fn discussion_node(discussion: &Discussion) -> (r: GraphNode)
    ensures
        r@ == discussion_view(*discussion),
{
    let mut properties = discussion_fields(discussion);
    push_datetime(
        &mut properties,
        "created_at",
        "created_at_ms",
        Some(discussion.created_at.as_str()),
    );
    push_datetime(
        &mut properties,
        "updated_at",
        "updated_at_ms",
        Some(discussion.updated_at.as_str()),
    );
    let texts = title_body_embeddings(
        "GitHub discussion",
        discussion.title.as_str(),
        discussion.body_text.as_str(),
    );
    let number = signed_text(discussion.number);
    GraphNode::new(
        "Discussion",
        properties,
        texts,
        concat4("discussion #", number.as_str(), " ", discussion.title.as_str()),
    )
}

/// The node of a category of discussions.
pub open spec fn category_view(category: DiscussionCategory) -> GraphNodeView {
    engineering::node_of(
        "DiscussionCategory"@,
        category_base(category),
        seq![
            "GitHub discussion category "@ + category.name@ + ". "@ + fields::or_empty(
                category.description,
            ),
        ],
        category.name@,
    )
}

fn category_node(category: &DiscussionCategory) -> (r: GraphNode)
    ensures
        r@ == category_view(*category),
{
    let description = text_or_empty(&category.description);
    GraphNode::new(
        "DiscussionCategory",
        category_fields(category),
        one_text(
            concat4(
                "GitHub discussion category ",
                category.name.as_str(),
                ". ",
                description.as_str(),
            ),
        ),
        category.name.clone(),
    )
}

/// How a comment relates to its discussion: the chosen answer answers it.
pub open spec fn discussion_relationship(discussion: Discussion, comment: Comment) -> Seq<char> {
    match discussion.answer {
        Some(answer) => if answer.id@ == comment.id@ {
            "ANSWERS"@
        } else {
            "COMMENTS_ON"@
        },
        None => "COMMENTS_ON"@,
    }
}

fn relationship_of(discussion: &Discussion, comment: &Comment) -> (r: &'static str)
    ensures
        r@ == discussion_relationship(*discussion, *comment),
{
    match &discussion.answer {
        Some(answer) => if text::same_text(answer.id.as_str(), comment.id.as_str()) {
            "ANSWERS"
        } else {
            "COMMENTS_ON"
        },
        None => "COMMENTS_ON",
    }
}

impl GraphView {
    /// The graph with a discussion and its category, without its comments.
    pub open spec fn with_discussion_alone(
        self,
        repository_key: Seq<char>,
        discussion: Discussion,
    ) -> GraphView {
        let key = "discussion:"@ + discussion.id@;
        let number = github_model::num(discussion.number);
        let category = discussion.category;
        let category_key = "discussion-category:"@ + category.id@;
        self.with_node(key, discussion_view(discussion), 3).with_edge(
            repository_key,
            key,
            "HAS_DISCUSSION"@,
            Seq::empty(),
            "Repository contains GitHub discussion #"@ + number + ": "@ + discussion.title@,
        ).with_author(discussion.author, key, "discussion #"@ + number).with_node(
            category_key,
            category_view(category),
            2,
        ).with_edge(
            repository_key,
            category_key,
            "HAS_DISCUSSION_CATEGORY"@,
            Seq::empty(),
            "Repository has GitHub discussion category "@ + category.name@,
        ).with_edge(
            key,
            category_key,
            "IN_CATEGORY"@,
            Seq::empty(),
            "Discussion #"@ + number + " is in category "@ + category.name@,
        )
    }

    /// The graph with the first `upto` comments of a discussion and the
    /// replies to them.
    pub open spec fn with_discussed(self, discussion: Discussion, upto: nat) -> GraphView
        decreases upto,
    {
        if upto == 0 {
            self
        } else {
            let comment = discussion.comments.nodes@[upto - 1];
            self.with_discussed(discussion, (upto - 1) as nat).with_comment(
                "discussion:"@ + discussion.id@,
                comment,
                "DiscussionComment"@,
                discussion_relationship(discussion, comment),
            ).with_comments(
                "comment:"@ + comment.id@,
                comment.replies@,
                "DiscussionReply"@,
                "REPLIES_TO"@,
                comment.replies@.len(),
            )
        }
    }

    /// The graph with a discussion and everything in it.
    pub open spec fn with_discussion(self, repository_key: Seq<char>, discussion: Discussion) -> GraphView {
        self.with_discussion_alone(repository_key, discussion).with_discussed(
            discussion,
            discussion.comments.nodes@.len(),
        )
    }
}

fn add_discussion_alone(
    graph: &mut EngineeringGraph,
    repository_key: &str,
    discussion: &Discussion,
)
    requires
        old(graph)@.wf(),
    ensures
        final(graph)@ == old(graph)@.with_discussion_alone(repository_key@, *discussion),
        final(graph)@.wf(),
{
    let key = discussion_key(discussion.id.as_str());
    graph.upsert_node(key.clone(), discussion_node(discussion), 3);
    let number = signed_text(discussion.number);
    graph.add_edge(
        repository_key,
        key.as_str(),
        "HAS_DISCUSSION",
        no_fields(),
        concat4(
            "Repository contains GitHub discussion #",
            number.as_str(),
            ": ",
            discussion.title.as_str(),
        ),
    );
    let what = concat2("discussion #", number.as_str());
    add_author(graph, &discussion.author, key.as_str(), what.as_str());
    let category_key = concat2("discussion-category:", discussion.category.id.as_str());
    graph.upsert_node(category_key.clone(), category_node(&discussion.category), 2);
    graph.add_edge(
        repository_key,
        category_key.as_str(),
        "HAS_DISCUSSION_CATEGORY",
        no_fields(),
        concat2(
            "Repository has GitHub discussion category ",
            discussion.category.name.as_str(),
        ),
    );
    graph.add_edge(
        key.as_str(),
        category_key.as_str(),
        "IN_CATEGORY",
        no_fields(),
        concat4(
            "Discussion #",
            number.as_str(),
            " is in category ",
            discussion.category.name.as_str(),
        ),
    );
}

/// Adds a discussion and everything in it.
pub fn add_discussion(
    graph: &mut EngineeringGraph,
    repository_key: &str,
    discussion: &Discussion,
)
    requires
        old(graph)@.wf(),
    ensures
        final(graph)@ == old(graph)@.with_discussion(repository_key@, *discussion),
        final(graph)@.wf(),
{
    add_discussion_alone(graph, repository_key, discussion);
    let ghost base = graph@;
    let key = discussion_key(discussion.id.as_str());
    let mut i: usize = 0;
    while i < discussion.comments.nodes.len()
        invariant
            i <= discussion.comments.nodes.len(),
            key@ == "discussion:"@ + discussion.id@,
            graph@.wf(),
            graph@ == base.with_discussed(*discussion, i as nat),
        decreases discussion.comments.nodes.len() - i,
    {
        let comment = &discussion.comments.nodes[i];
        add_comment(
            graph,
            key.as_str(),
            comment,
            "DiscussionComment",
            relationship_of(discussion, comment),
        );
        let parent = comment_key(comment.id.as_str());
        add_comments(graph, parent.as_str(), &comment.replies, "DiscussionReply", "REPLIES_TO");
        i = i + 1;
    }
}

/// What a release is called: by its name, or by its tag where that is absent
/// or empty.
pub open spec fn release_name(release: Release) -> Seq<char> {
    match release.name {
        Some(name) => if name@.len() == 0 {
            release.tag_name@
        } else {
            name@
        },
        None => release.tag_name@,
    }
}

fn display_name(release: &Release) -> (r: String)
    ensures
        r@ == release_name(*release),
{
    match &release.name {
        Some(name) => if name.as_str().is_empty() {
            release.tag_name.clone()
        } else {
            name.clone()
        },
        None => release.tag_name.clone(),
    }
}

/// The properties that every release has.
pub open spec fn release_base(release: Release) -> Seq<(Seq<char>, ValueView)> {
    seq![
        github_model::text_field("external_id"@, release.id@),
        github_model::text_field("name"@, release_name(release)),
        github_model::text_field("tag"@, release.tag_name@),
        github_model::text_field("description"@, fields::stored(fields::or_empty(release.description))),
        github_model::text_field("url"@, release.url@),
        github_model::bool_field("draft"@, release.is_draft),
        github_model::bool_field("prerelease"@, release.is_prerelease),
    ]
}

fn release_fields(release: &Release) -> (r: Vec<Field>)
    ensures
        engineering::fields_view(r@) == release_base(*release),
{
    let mut out: Vec<Field> = Vec::new();
    out.push(("external_id", string_value(release.id.as_str())));
    out.push(("name", string_value(display_name(release).as_str())));
    out.push(("tag", string_value(release.tag_name.as_str())));
    out.push(("description", string_value(stored_text(text_or_empty(&release.description).as_str()).as_str())));
    out.push(("url", string_value(release.url.as_str())));
    out.push(("draft", Value::Bool(release.is_draft)));
    out.push(("prerelease", Value::Bool(release.is_prerelease)));
    assert(engineering::fields_view(out@) =~= release_base(*release));
    out
}

/// The node of a release.
pub open spec fn release_view(release: Release) -> GraphNodeView {
    let created = fields::with_time(
        release_base(release),
        "created_at"@,
        "created_at_ms"@,
        Some(release.created_at@),
    );
    let published = fields::with_time(
        created,
        "published_at"@,
        "published_at_ms"@,
        text::opt_view(release.published_at),
    );
    engineering::node_of(
        "Release"@,
        fields::with_time(
            published,
            "updated_at"@,
            "updated_at_ms"@,
            Some(release.updated_at@),
        ),
        fields::title_body(
            "GitHub release"@,
            release_name(release),
            fields::or_empty(release.description),
        ),
        "release "@ + release_name(release),
    )
}

fn release_node(release: &Release) -> (r: GraphNode)
    ensures
        r@ == release_view(*release),
{
    let mut properties = release_fields(release);
    push_datetime(
        &mut properties,
        "created_at",
        "created_at_ms",
        Some(release.created_at.as_str()),
    );
    push_datetime(
        &mut properties,
        "published_at",
        "published_at_ms",
        as_slice(&release.published_at),
    );
    push_datetime(
        &mut properties,
        "updated_at",
        "updated_at_ms",
        Some(release.updated_at.as_str()),
    );
    let name = display_name(release);
    let description = text_or_empty(&release.description);
    let texts = title_body_embeddings("GitHub release", name.as_str(), description.as_str());
    GraphNode::new("Release", properties, texts, concat2("release ", name.as_str()))
}

/// The properties of a commit of which only a tag is known.
pub open spec fn tag_commit_base(commit: TagCommit) -> Seq<(Seq<char>, ValueView)> {
    seq![
        github_model::text_field("oid"@, commit.oid@),
        github_model::text_field("url"@, commit.url@),
        github_model::bool_field("stub"@, true),
    ]
}

fn tag_commit_fields(commit: &TagCommit) -> (r: Vec<Field>)
    ensures
        engineering::fields_view(r@) == tag_commit_base(*commit),
{
    let mut out: Vec<Field> = Vec::new();
    out.push(("oid", string_value(commit.oid.as_str())));
    out.push(("url", string_value(commit.url.as_str())));
    out.push(("stub", Value::Bool(true)));
    assert(engineering::fields_view(out@) =~= tag_commit_base(*commit));
    out
}

/// The node of a commit of which only a tag is known.
pub open spec fn tag_commit_view(commit: TagCommit) -> GraphNodeView {
    engineering::node_of(
        "Commit"@,
        tag_commit_base(commit),
        seq!["Git commit "@ + commit.oid@],
        "commit "@ + fields::short(commit.oid@),
    )
}

fn tag_commit_node(commit: &TagCommit) -> (r: GraphNode)
    ensures
        r@ == tag_commit_view(*commit),
{
    let start = short_oid(commit.oid.as_str());
    GraphNode::new(
        "Commit",
        tag_commit_fields(commit),
        one_text(concat2("Git commit ", commit.oid.as_str())),
        concat2("commit ", start.as_str()),
    )
}

impl GraphView {
    /// The graph with a release.
    pub open spec fn with_release(self, repository_key: Seq<char>, release: Release) -> GraphView {
        let key = "release:"@ + release.id@;
        let name = release_name(release);
        let released = self.with_node(key, release_view(release), 3).with_edge(
            repository_key,
            key,
            "PUBLISHED_RELEASE"@,
            Seq::empty(),
            "Repository published GitHub release "@ + name,
        ).with_author(release.author, key, "release "@ + name);
        match release.tag_commit {
            None => released,
            Some(commit) => released.with_node(
                "commit:"@ + commit.oid@,
                tag_commit_view(commit),
                1,
            ).with_edge(
                key,
                "commit:"@ + commit.oid@,
                "POINTS_TO"@,
                Seq::empty(),
                "Release "@ + name + " points to Git commit "@ + commit.oid@,
            ),
        }
    }
}

/// Adds a release.
pub fn add_release(graph: &mut EngineeringGraph, repository_key: &str, release: &Release)
    requires
        old(graph)@.wf(),
    ensures
        final(graph)@ == old(graph)@.with_release(repository_key@, *release),
        final(graph)@.wf(),
{
    let key = release_key(release.id.as_str());
    let name = display_name(release);
    graph.upsert_node(key.clone(), release_node(release), 3);
    graph.add_edge(
        repository_key,
        key.as_str(),
        "PUBLISHED_RELEASE",
        no_fields(),
        concat2("Repository published GitHub release ", name.as_str()),
    );
    let what = concat2("release ", name.as_str());
    add_author(graph, &release.author, key.as_str(), what.as_str());
    match &release.tag_commit {
        None => {},
        Some(commit) => {
            let target = commit_key(commit.oid.as_str());
            graph.upsert_node(target.clone(), tag_commit_node(commit), 1);
            graph.add_edge(
                key.as_str(),
                target.as_str(),
                "POINTS_TO",
                no_fields(),
                concat4(
                    "Release ",
                    name.as_str(),
                    " points to Git commit ",
                    commit.oid.as_str(),
                ),
            );
        },
    }
}

} // verus!
