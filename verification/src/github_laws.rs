//! Adding GitHub records to a graph never leaves a relationship without its
//! nodes, and never loses a node.

use vstd::prelude::*;

use crate::engineering::{GraphNodeView, GraphView};
use crate::github_data::{
    Actor, ChangedFile, Comment, Commit, Discussion, Issue, Label, Milestone, PullRequest,
    PullRequestCommit, Release, Repository, Review,
};
use crate::github_items;
use crate::github_model;
use crate::graph::ValueView;

verus! {

/// The later graph is closed and has every key of the earlier one.
pub open spec fn safely(before: GraphView, after: GraphView) -> bool {
    &&& after.closed()
    &&& forall|k: Seq<char>| before.keys.contains(k) ==> #[trigger] after.keys.contains(k)
}

broadcast proof fn lemma_node_step(g: GraphView, key: Seq<char>, node: GraphNodeView, rank: u8)
    requires
        g.closed(),
    ensures
        safely(g, #[trigger] g.with_node(key, node, rank)),
        g.with_node(key, node, rank).keys.contains(key),
{
    g.lemma_with_node(key, node, rank);
}

broadcast proof fn lemma_edge_step(
    g: GraphView,
    source: Seq<char>,
    target: Seq<char>,
    label: Seq<char>,
    properties: Seq<(Seq<char>, ValueView)>,
    embedding_text: Seq<char>,
)
    requires
        g.closed(),
        g.keys.contains(source),
        g.keys.contains(target),
    ensures
        safely(g, #[trigger] g.with_edge(source, target, label, properties, embedding_text)),
{
    g.lemma_with_edge(source, target, label, properties, embedding_text);
}

broadcast group group_steps {
    lemma_node_step,
    lemma_edge_step,
}

proof fn lemma_author(g: GraphView, actor: Option<Actor>, key: Seq<char>, summary: Seq<char>)
    requires
        g.closed(),
        g.keys.contains(key),
    ensures
        safely(g, g.with_author(actor, key, summary)),
{
    broadcast use group_steps;
}

proof fn lemma_assignees(
    g: GraphView,
    key: Seq<char>,
    assignees: Seq<Actor>,
    summary: Seq<char>,
    upto: nat,
)
    requires
        g.closed(),
        g.keys.contains(key),
    ensures
        safely(g, g.with_assignees(key, assignees, summary, upto)),
    decreases upto,
{
    broadcast use group_steps;
    if upto > 0 {
        lemma_assignees(g, key, assignees, summary, (upto - 1) as nat);
    }
}

proof fn lemma_labels(g: GraphView, key: Seq<char>, labels: Seq<Label>, upto: nat)
    requires
        g.closed(),
        g.keys.contains(key),
    ensures
        safely(g, g.with_labels(key, labels, upto)),
    decreases upto,
{
    broadcast use group_steps;
    if upto > 0 {
        lemma_labels(g, key, labels, (upto - 1) as nat);
    }
}

proof fn lemma_taxonomy(
    g: GraphView,
    repository_key: Seq<char>,
    key: Seq<char>,
    labels: Seq<Label>,
    milestone: Option<Milestone>,
)
    requires
        g.closed(),
        g.keys.contains(repository_key),
        g.keys.contains(key),
    ensures
        safely(g, g.with_taxonomy(repository_key, key, labels, milestone)),
{
    broadcast use group_steps;
    lemma_labels(g, key, labels, labels.len());
}

proof fn lemma_comment(
    g: GraphView,
    parent: Seq<char>,
    comment: Comment,
    kind: Seq<char>,
    relationship: Seq<char>,
)
    requires
        g.closed(),
        g.keys.contains(parent),
    ensures
        safely(g, g.with_comment(parent, comment, kind, relationship)),
        g.with_comment(parent, comment, kind, relationship).keys.contains(
            "comment:"@ + comment.id@,
        ),
{
    broadcast use group_steps;
}

proof fn lemma_comments(
    g: GraphView,
    parent: Seq<char>,
    comments: Seq<Comment>,
    kind: Seq<char>,
    relationship: Seq<char>,
    upto: nat,
)
    requires
        g.closed(),
        g.keys.contains(parent),
    ensures
        safely(g, g.with_comments(parent, comments, kind, relationship, upto)),
    decreases upto,
{
    if upto > 0 {
        lemma_comments(g, parent, comments, kind, relationship, (upto - 1) as nat);
        let before = g.with_comments(parent, comments, kind, relationship, (upto - 1) as nat);
        lemma_comment(before, parent, comments[upto - 1], kind, relationship);
    }
}

proof fn lemma_reviews(
    g: GraphView,
    key: Seq<char>,
    number: i64,
    reviews: Seq<Review>,
    upto: nat,
)
    requires
        g.closed(),
        g.keys.contains(key),
    ensures
        safely(g, g.with_reviews(key, number, reviews, upto)),
    decreases upto,
{
    broadcast use group_steps;
    if upto > 0 {
        lemma_reviews(g, key, number, reviews, (upto - 1) as nat);
    }
}

proof fn lemma_commit(g: GraphView, key: Seq<char>, number: i64, commit: Commit, complete: bool)
    requires
        g.closed(),
        g.keys.contains(key),
    ensures
        safely(g, g.with_commit(key, number, commit, complete)),
{
    broadcast use group_steps;
}

proof fn lemma_commits(
    g: GraphView,
    key: Seq<char>,
    number: i64,
    commits: Seq<PullRequestCommit>,
    upto: nat,
)
    requires
        g.closed(),
        g.keys.contains(key),
    ensures
        safely(g, g.with_commits(key, number, commits, upto)),
    decreases upto,
{
    if upto > 0 {
        lemma_commits(g, key, number, commits, (upto - 1) as nat);
        let before = g.with_commits(key, number, commits, (upto - 1) as nat);
        lemma_commit(before, key, number, commits[upto - 1].commit, true);
    }
}

proof fn lemma_files(
    g: GraphView,
    repository_key: Seq<char>,
    key: Seq<char>,
    number: i64,
    files: Seq<ChangedFile>,
    upto: nat,
)
    requires
        g.closed(),
        g.keys.contains(repository_key),
        g.keys.contains(key),
    ensures
        safely(g, g.with_files(repository_key, key, number, files, upto)),
    decreases upto,
{
    broadcast use group_steps;
    if upto > 0 {
        lemma_files(g, repository_key, key, number, files, (upto - 1) as nat);
    }
}

proof fn lemma_topics(
    g: GraphView,
    repository_key: Seq<char>,
    name: Seq<char>,
    topics: Seq<String>,
    upto: nat,
)
    requires
        g.closed(),
        g.keys.contains(repository_key),
    ensures
        safely(g, g.with_topics(repository_key, name, topics, upto)),
    decreases upto,
{
    broadcast use group_steps;
    if upto > 0 {
        lemma_topics(g, repository_key, name, topics, (upto - 1) as nat);
    }
}

/// Adding a repository keeps every node, adds the repository's own, and
/// leaves no relationship without its nodes.
pub proof fn law_repository_is_linked(g: GraphView, repository: Repository)
    requires
        g.closed(),
    ensures
        safely(g, g.with_repository(repository)),
        g.with_repository(repository).keys.contains("repository:"@ + repository.id@),
{
    broadcast use group_steps;
    let key = "repository:"@ + repository.id@;
    let started = g.with_node(key, github_model::repository_view(repository), 3);
    lemma_topics(
        started,
        key,
        repository.name_with_owner@,
        repository.repository_topics@,
        repository.repository_topics@.len(),
    );
}

proof fn lemma_issue_alone(g: GraphView, repository_key: Seq<char>, issue: Issue, complete: bool)
    requires
        g.closed(),
        g.keys.contains(repository_key),
    ensures
        safely(g, g.with_issue_alone(repository_key, issue, complete)),
        g.with_issue_alone(repository_key, issue, complete).keys.contains("issue:"@ + issue.id@),
{
    reveal(GraphView::with_issue_alone);
    let key = "issue:"@ + issue.id@;
    let number = github_model::num(issue.number);
    let a = g.with_node(
        key,
        github_items::issue_view(issue, complete),
        github_items::detail_rank(complete),
    );
    lemma_node_step(
        g,
        key,
        github_items::issue_view(issue, complete),
        github_items::detail_rank(complete),
    );
    let line = "Repository contains GitHub issue #"@ + number + ": "@ + issue.title@;
    let b = a.with_edge(repository_key, key, "HAS_ISSUE"@, Seq::empty(), line);
    lemma_edge_step(a, repository_key, key, "HAS_ISSUE"@, Seq::empty(), line);
    let c = b.with_author(issue.author, key, "issue #"@ + number);
    lemma_author(b, issue.author, key, "issue #"@ + number);
    let d = c.with_taxonomy(repository_key, key, issue.labels.nodes@, issue.milestone);
    lemma_taxonomy(c, repository_key, key, issue.labels.nodes@, issue.milestone);
    let assignees = issue.assignees.nodes@;
    let e = d.with_assignees(key, assignees, "issue #"@ + number, assignees.len());
    lemma_assignees(d, key, assignees, "issue #"@ + number, assignees.len());
    let comments = issue.comments.nodes@;
    lemma_comments(e, key, comments, "IssueComment"@, "COMMENTS_ON"@, comments.len());
}

/// Adding an issue keeps every node, adds the issue's own, and leaves no
/// relationship without its nodes.
pub proof fn law_issue_is_linked(
    g: GraphView,
    repository_key: Seq<char>,
    issue: Issue,
    complete: bool,
)
    requires
        g.closed(),
        g.keys.contains(repository_key),
    ensures
        safely(g, g.with_issue(repository_key, issue, complete)),
        g.with_issue(repository_key, issue, complete).keys.contains("issue:"@ + issue.id@),
    decreases issue, 1int, 0int,
{
    lemma_issue_alone(g, repository_key, issue, complete);
    lemma_closers(
        g.with_issue_alone(repository_key, issue, complete),
        repository_key,
        issue,
        issue.closed_by_pull_requests@.len() as int,
    );
}

proof fn lemma_closers(g: GraphView, repository_key: Seq<char>, issue: Issue, upto: int)
    requires
        g.closed(),
        g.keys.contains(repository_key),
        g.keys.contains("issue:"@ + issue.id@),
    ensures
        safely(g, g.with_closers(repository_key, issue, upto)),
    decreases issue, 0int, upto,
{
    if 0 < upto <= issue.closed_by_pull_requests@.len() {
        let pull_request = issue.closed_by_pull_requests@[upto - 1];
        lemma_closers(g, repository_key, issue, upto - 1);
        let before = g.with_closers(repository_key, issue, upto - 1);
        assert(decreases_to!(issue => issue.closed_by_pull_requests@[upto - 1]));
        law_pull_request_is_linked(before, repository_key, pull_request, false);
        let now = before.with_pull_request(repository_key, pull_request, false);
        lemma_edge_step(
            now,
            "pull-request:"@ + pull_request.id@,
            "issue:"@ + issue.id@,
            "CLOSES"@,
            Seq::empty(),
            github_items::closes_text(pull_request.number, issue.number, issue.title@),
        );
    }
}

proof fn lemma_pull_request_alone(
    g: GraphView,
    repository_key: Seq<char>,
    pull_request: PullRequest,
    complete: bool,
)
    requires
        g.closed(),
        g.keys.contains(repository_key),
    ensures
        safely(g, g.with_pull_request_alone(repository_key, pull_request, complete)),
        g.with_pull_request_alone(repository_key, pull_request, complete).keys.contains(
            "pull-request:"@ + pull_request.id@,
        ),
{
    reveal(GraphView::with_pull_request_alone);
    let key = "pull-request:"@ + pull_request.id@;
    let number = github_model::num(pull_request.number);
    let view = github_items::pull_request_view(pull_request, complete);
    let rank = github_items::detail_rank(complete);
    let a = g.with_node(key, view, rank);
    lemma_node_step(g, key, view, rank);
    let line = "Repository contains GitHub pull request #"@ + number + ": "@ + pull_request.title@;
    let b = a.with_edge(repository_key, key, "HAS_PULL_REQUEST"@, Seq::empty(), line);
    lemma_edge_step(a, repository_key, key, "HAS_PULL_REQUEST"@, Seq::empty(), line);
    let what = "pull request #"@ + number;
    let c = b.with_author(pull_request.author, key, what);
    lemma_author(b, pull_request.author, key, what);
    let labels = pull_request.labels.nodes@;
    let d = c.with_taxonomy(repository_key, key, labels, pull_request.milestone);
    lemma_taxonomy(c, repository_key, key, labels, pull_request.milestone);
    let assignees = pull_request.assignees.nodes@;
    let e = d.with_assignees(key, assignees, what, assignees.len());
    lemma_assignees(d, key, assignees, what, assignees.len());
    let comments = pull_request.comments.nodes@;
    let f = e.with_comments(
        key,
        comments,
        "PullRequestComment"@,
        "COMMENTS_ON"@,
        comments.len(),
    );
    lemma_comments(e, key, comments, "PullRequestComment"@, "COMMENTS_ON"@, comments.len());
    let reviews = pull_request.reviews.nodes@;
    let h = f.with_reviews(key, pull_request.number, reviews, reviews.len());
    lemma_reviews(f, key, pull_request.number, reviews, reviews.len());
    let commits = pull_request.commits.nodes@;
    let i = h.with_commits(key, pull_request.number, commits, commits.len());
    lemma_commits(h, key, pull_request.number, commits, commits.len());
    let files = pull_request.files.nodes@;
    lemma_files(i, repository_key, key, pull_request.number, files, files.len());
}

/// Adding a pull request keeps every node, adds the pull request's own, and
/// leaves no relationship without its nodes.
pub proof fn law_pull_request_is_linked(
    g: GraphView,
    repository_key: Seq<char>,
    pull_request: PullRequest,
    complete: bool,
)
    requires
        g.closed(),
        g.keys.contains(repository_key),
    ensures
        safely(g, g.with_pull_request(repository_key, pull_request, complete)),
        g.with_pull_request(repository_key, pull_request, complete).keys.contains(
            "pull-request:"@ + pull_request.id@,
        ),
    decreases pull_request, 1int, 0int,
{
    lemma_pull_request_alone(g, repository_key, pull_request, complete);
    lemma_closed(
        g.with_pull_request_alone(repository_key, pull_request, complete),
        repository_key,
        pull_request,
        pull_request.closing_issues@.len() as int,
    );
}

proof fn lemma_closed(
    g: GraphView,
    repository_key: Seq<char>,
    pull_request: PullRequest,
    upto: int,
)
    requires
        g.closed(),
        g.keys.contains(repository_key),
        g.keys.contains("pull-request:"@ + pull_request.id@),
    ensures
        safely(g, g.with_closed(repository_key, pull_request, upto)),
    decreases pull_request, 0int, upto,
{
    if 0 < upto <= pull_request.closing_issues@.len() {
        let issue = pull_request.closing_issues@[upto - 1];
        lemma_closed(g, repository_key, pull_request, upto - 1);
        let before = g.with_closed(repository_key, pull_request, upto - 1);
        assert(decreases_to!(pull_request => pull_request.closing_issues@[upto - 1]));
        law_issue_is_linked(before, repository_key, issue, false);
        let now = before.with_issue(repository_key, issue, false);
        lemma_edge_step(
            now,
            "pull-request:"@ + pull_request.id@,
            "issue:"@ + issue.id@,
            "CLOSES"@,
            Seq::empty(),
            github_items::closes_text(pull_request.number, issue.number, issue.title@),
        );
    }
}

proof fn lemma_discussed(g: GraphView, discussion: Discussion, upto: nat)
    requires
        g.closed(),
        g.keys.contains("discussion:"@ + discussion.id@),
    ensures
        safely(g, g.with_discussed(discussion, upto)),
    decreases upto,
{
    if upto > 0 {
        lemma_discussed(g, discussion, (upto - 1) as nat);
        let before = g.with_discussed(discussion, (upto - 1) as nat);
        let comment = discussion.comments.nodes@[upto - 1];
        let parent = "discussion:"@ + discussion.id@;
        let relationship = github_items::discussion_relationship(discussion, comment);
        lemma_comment(before, parent, comment, "DiscussionComment"@, relationship);
        let now = before.with_comment(parent, comment, "DiscussionComment"@, relationship);
        lemma_comments(
            now,
            "comment:"@ + comment.id@,
            comment.replies@,
            "DiscussionReply"@,
            "REPLIES_TO"@,
            comment.replies@.len(),
        );
    }
}

/// Adding a discussion keeps every node and leaves no relationship without
/// its nodes.
pub proof fn law_discussion_is_linked(
    g: GraphView,
    repository_key: Seq<char>,
    discussion: Discussion,
)
    requires
        g.closed(),
        g.keys.contains(repository_key),
    ensures
        safely(g, g.with_discussion(repository_key, discussion)),
        g.with_discussion(repository_key, discussion).keys.contains(
            "discussion:"@ + discussion.id@,
        ),
{
    let now = g.with_discussion_alone(repository_key, discussion);
    assert(safely(g, now) && now.keys.contains("discussion:"@ + discussion.id@)) by {
        broadcast use group_steps;
    }
    lemma_discussed(now, discussion, discussion.comments.nodes@.len());
}

/// Adding a release keeps every node and leaves no relationship without its
/// nodes.
pub proof fn law_release_is_linked(g: GraphView, repository_key: Seq<char>, release: Release)
    requires
        g.closed(),
        g.keys.contains(repository_key),
    ensures
        safely(g, g.with_release(repository_key, release)),
        g.with_release(repository_key, release).keys.contains("release:"@ + release.id@),
{
    broadcast use group_steps;
}

} // verus!
