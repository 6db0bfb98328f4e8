//! Which relationships an import makes between which nodes, and that it makes
//! every one that its records tell of.

use vstd::prelude::*;
use vstd::string::*;

use crate::engineering;
use crate::engineering::{GraphNodeView, GraphView};
use crate::github_data::{
    Actor, ChangedFile, Comment, Commit, Discussion, Issue, Label, Milestone, PullRequest,
    PullRequestCommit, Release, Repository, Review,
};
use crate::github_items;
use crate::github_model;
use crate::graph::ValueView;

verus! {

/// Whether a key starts with what keys of a kind start with.
pub open spec fn keyed(kind: Seq<char>, key: Seq<char>) -> bool {
    kind.is_prefix_of(key)
}

/// Whether a node of that label may stand under the key.
pub open spec fn node_fits(key: Seq<char>, label: Seq<char>) -> bool {
    ||| keyed("repository:"@, key) && label == "Repository"@
    ||| keyed("topic:"@, key) && label == "Topic"@
    ||| keyed("user:"@, key) && label == "User"@
    ||| keyed("label:"@, key) && label == "Label"@
    ||| keyed("milestone:"@, key) && label == "Milestone"@
    ||| keyed("issue:"@, key) && label == "Issue"@
    ||| keyed("pull-request:"@, key) && label == "PullRequest"@
    ||| keyed("comment:"@, key) && label == "Comment"@
    ||| keyed("review:"@, key) && label == "Review"@
    ||| keyed("commit:"@, key) && label == "Commit"@
    ||| keyed("file:"@, key) && label == "File"@
    ||| keyed("discussion:"@, key) && label == "Discussion"@
    ||| keyed("discussion-category:"@, key) && label == "DiscussionCategory"@
    ||| keyed("release:"@, key) && label == "Release"@
}

/// Whether a relationship of that label may lead from one key to the other:
/// users author, items are assigned to users, repositories have items, comments
/// comment on what they comment on, and pull requests close issues.
pub open spec fn edge_fits(source: Seq<char>, target: Seq<char>, label: Seq<char>) -> bool {
    ||| label == "AUTHORED"@ && keyed("user:"@, source)
    ||| label == "ASSIGNED_TO"@ && keyed("user:"@, target)
    ||| label == "TAGGED"@ && keyed("label:"@, target)
    ||| label == "HAS_TOPIC"@ && keyed("repository:"@, source) && keyed("topic:"@, target)
    ||| label == "HAS_MILESTONE"@ && keyed("repository:"@, source) && keyed("milestone:"@, target)
    ||| label == "IN_MILESTONE"@ && keyed("milestone:"@, target)
    ||| label == "HAS_ISSUE"@ && keyed("repository:"@, source) && keyed("issue:"@, target)
    ||| label == "HAS_PULL_REQUEST"@ && keyed("repository:"@, source) && keyed(
        "pull-request:"@,
        target,
    )
    ||| label == "COMMENTS_ON"@ && keyed("comment:"@, source)
    ||| label == "ANSWERS"@ && keyed("comment:"@, source) && keyed("discussion:"@, target)
    ||| label == "REPLIES_TO"@ && keyed("comment:"@, source) && keyed("comment:"@, target)
    ||| label == "REVIEWS"@ && keyed("review:"@, source) && keyed("pull-request:"@, target)
    ||| label == "HAS_COMMIT"@ && keyed("pull-request:"@, source) && keyed("commit:"@, target)
    ||| label == "CONTAINS_FILE"@ && keyed("repository:"@, source) && keyed("file:"@, target)
    ||| label == "CHANGES"@ && keyed("pull-request:"@, source) && keyed("file:"@, target)
    ||| label == "CLOSES"@ && keyed("pull-request:"@, source) && keyed("issue:"@, target)
    ||| label == "HAS_DISCUSSION"@ && keyed("repository:"@, source) && keyed("discussion:"@, target)
    ||| label == "HAS_DISCUSSION_CATEGORY"@ && keyed("repository:"@, source) && keyed(
        "discussion-category:"@,
        target,
    )
    ||| label == "IN_CATEGORY"@ && keyed("discussion:"@, source) && keyed(
        "discussion-category:"@,
        target,
    )
    ||| label == "PUBLISHED_RELEASE"@ && keyed("repository:"@, source) && keyed("release:"@, target)
    ||| label == "POINTS_TO"@ && keyed("release:"@, source) && keyed("commit:"@, target)
}

/// Whether every node and every relationship of a graph fits.
pub open spec fn schema(g: GraphView) -> bool {
    &&& g.nodes.len() == g.keys.len()
    &&& forall|i: int| 0 <= i < g.keys.len() ==> node_fits(#[trigger] g.keys[i], g.nodes[i].label)
    &&& forall|e: int|
        0 <= e < g.edges.len() ==> edge_fits(
            (#[trigger] g.edges[e]).source,
            g.edges[e].target,
            g.edges[e].label,
        )
}

/// Whether the later graph has every relationship of the earlier one.
pub open spec fn keeps_links(before: GraphView, after: GraphView) -> bool {
    forall|s: Seq<char>, t: Seq<char>, l: Seq<char>|
        before.links(s, t, l) ==> #[trigger] after.links(s, t, l)
}

/// Whether a step loses no relationship, and makes no node and no relationship
/// that does not fit.
pub open spec fn steps(before: GraphView, after: GraphView) -> bool {
    &&& keeps_links(before, after)
    &&& schema(before) ==> schema(after)
}

proof fn lemma_keyed(kind: Seq<char>, id: Seq<char>)
    ensures
        keyed(kind, kind + id),
{
    assert((kind + id).subrange(0, kind.len() as int) =~= kind);
}

proof fn lemma_node(g: GraphView, key: Seq<char>, node: GraphNodeView, rank: u8)
    requires
        node_fits(key, node.label),
    ensures
        steps(g, g.with_node(key, node, rank)),
{
    let now = g.with_node(key, node, rank);
    assert(now.edges == g.edges);
    assert forall|s: Seq<char>, t: Seq<char>, l: Seq<char>| g.links(s, t, l) implies #[trigger]
        now.links(s, t, l) by {
        let i = choose|i: int|
            0 <= i < g.edges.len() && engineering::same_link(#[trigger] g.edges[i], s, t, l);
        assert(engineering::same_link(now.edges[i], s, t, l));
    }
    if schema(g) {
        assert forall|i: int| 0 <= i < now.keys.len() implies node_fits(
            #[trigger] now.keys[i],
            now.nodes[i].label,
        ) by {
            if i < g.keys.len() {
                assert(now.keys[i] == g.keys[i]);
                assert(node_fits(g.keys[i], g.nodes[i].label));
            }
            if g.keys.contains(key) {
                let at = g.keys.index_of(key);
                assert(g.keys[at] == key);
            }
        }
    }
}

proof fn lemma_edge(
    g: GraphView,
    source: Seq<char>,
    target: Seq<char>,
    label: Seq<char>,
    properties: Seq<(Seq<char>, ValueView)>,
    line: Seq<char>,
)
    requires
        edge_fits(source, target, label),
    ensures
        steps(g, g.with_edge(source, target, label, properties, line)),
        g.with_edge(source, target, label, properties, line).links(source, target, label),
{
    let now = g.with_edge(source, target, label, properties, line);
    assert forall|s: Seq<char>, t: Seq<char>, l: Seq<char>| g.links(s, t, l) implies #[trigger]
        now.links(s, t, l) by {
        let i = choose|i: int|
            0 <= i < g.edges.len() && engineering::same_link(#[trigger] g.edges[i], s, t, l);
        assert(engineering::same_link(now.edges[i], s, t, l));
    }
    if !g.links(source, target, label) {
        assert(engineering::same_link(now.edges[g.edges.len() as int], source, target, label));
    }
    if schema(g) {
        assert forall|e: int| 0 <= e < now.edges.len() implies edge_fits(
            (#[trigger] now.edges[e]).source,
            now.edges[e].target,
            now.edges[e].label,
        ) by {
            if e < g.edges.len() {
                assert(now.edges[e] == g.edges[e]);
            }
        }
    }
}

proof fn lemma_both(a: GraphView, b: GraphView, c: GraphView)
    requires
        steps(a, b),
        steps(b, c),
    ensures
        steps(a, c),
{
    assert forall|s: Seq<char>, t: Seq<char>, l: Seq<char>| a.links(s, t, l) implies #[trigger]
        c.links(s, t, l) by {
        assert(b.links(s, t, l));
    }
}

/// Whether the graph says of the item that this actor wrote it, where there is
/// one.
pub open spec fn tells_author(g: GraphView, actor: Option<Actor>, item: Seq<char>) -> bool {
    actor matches Some(a) ==> g.links(github_model::actor_key(a), item, "AUTHORED"@)
}

proof fn lemma_actor(g: GraphView, actor: Actor)
    ensures
        steps(g, g.with_actor(actor)),
        keyed("user:"@, github_model::actor_key(actor)),
{
    lemma_keyed("user:"@, crate::text::spec_lowercase(actor.login@));
    lemma_node(
        g,
        github_model::actor_key(actor),
        engineering::node_of(
            "User"@,
            github_model::actor_base(actor),
            seq!["GitHub user "@ + actor.login@],
            actor.login@,
        ),
        2,
    );
}

proof fn lemma_author(g: GraphView, actor: Option<Actor>, item: Seq<char>, summary: Seq<char>)
    ensures
        steps(g, g.with_author(actor, item, summary)),
        tells_author(g.with_author(actor, item, summary), actor, item),
{
    if let Some(a) = actor {
        lemma_actor(g, a);
        let known = g.with_actor(a);
        let line = "GitHub user "@ + a.login@ + " authored "@ + summary;
        lemma_edge(
            known,
            github_model::actor_key(a),
            item,
            "AUTHORED"@,
            Seq::empty(),
            line,
        );
        lemma_both(g, known, g.with_author(actor, item, summary));
    }
}

/// Whether the graph says of the item that it is assigned to the first `upto`
/// of these.
pub open spec fn tells_assignees(
    g: GraphView,
    item: Seq<char>,
    assignees: Seq<Actor>,
    upto: int,
) -> bool {
    forall|i: int|
        0 <= i < upto ==> g.links(
            item,
            github_model::actor_key(#[trigger] assignees[i]),
            "ASSIGNED_TO"@,
        )
}

proof fn lemma_assignees(
    g: GraphView,
    item: Seq<char>,
    assignees: Seq<Actor>,
    summary: Seq<char>,
    upto: nat,
)
    ensures
        steps(g, g.with_assignees(item, assignees, summary, upto)),
        tells_assignees(g.with_assignees(item, assignees, summary, upto), item, assignees, upto as int),
    decreases upto,
{
    if upto > 0 {
        let less = (upto - 1) as nat;
        lemma_assignees(g, item, assignees, summary, less);
        let before = g.with_assignees(item, assignees, summary, less);
        let a = assignees[upto - 1];
        lemma_actor(before, a);
        let known = before.with_actor(a);
        lemma_both(g, before, known);
        lemma_edge(
            known,
            item,
            github_model::actor_key(a),
            "ASSIGNED_TO"@,
            Seq::empty(),
            summary + " is assigned to GitHub user "@ + a.login@,
        );
        let now = g.with_assignees(item, assignees, summary, upto);
        lemma_both(before, known, now);
        lemma_both(g, known, now);
        assert forall|i: int| 0 <= i < upto implies now.links(
            item,
            github_model::actor_key(#[trigger] assignees[i]),
            "ASSIGNED_TO"@,
        ) by {
            if i < less {
                assert(before.links(item, github_model::actor_key(assignees[i]), "ASSIGNED_TO"@));
            }
        }
    }
}

/// Whether the graph says of the item that it bears the first `upto` of these
/// labels.
pub open spec fn tells_labels(g: GraphView, item: Seq<char>, labels: Seq<Label>, upto: int) -> bool {
    forall|i: int|
        0 <= i < upto ==> g.links(item, "label:"@ + (#[trigger] labels[i]).id@, "TAGGED"@)
}

proof fn lemma_labels(g: GraphView, item: Seq<char>, labels: Seq<Label>, upto: nat)
    ensures
        steps(g, g.with_labels(item, labels, upto)),
        tells_labels(g.with_labels(item, labels, upto), item, labels, upto as int),
    decreases upto,
{
    if upto > 0 {
        let less = (upto - 1) as nat;
        lemma_labels(g, item, labels, less);
        let before = g.with_labels(item, labels, less);
        let label = labels[upto - 1];
        let key = "label:"@ + label.id@;
        lemma_keyed("label:"@, label.id@);
        let node = engineering::node_of(
            "Label"@,
            github_model::label_base(label),
            seq![
                "GitHub label "@ + label.name@ + ". "@ + crate::fields::or_empty(label.description),
            ],
            label.name@,
        );
        lemma_node(before, key, node, 2);
        let known = before.with_node(key, node, 2);
        lemma_both(g, before, known);
        lemma_edge(
            known,
            item,
            key,
            "TAGGED"@,
            Seq::empty(),
            "GitHub work item has label "@ + label.name@,
        );
        let now = g.with_labels(item, labels, upto);
        lemma_both(before, known, now);
        lemma_both(g, known, now);
        assert forall|i: int| 0 <= i < upto implies now.links(
            item,
            "label:"@ + (#[trigger] labels[i]).id@,
            "TAGGED"@,
        ) by {
            if i < less {
                assert(before.links(item, "label:"@ + labels[i].id@, "TAGGED"@));
            }
        }
    }
}

/// Whether the graph says which labels and which milestone the item has.
pub open spec fn tells_taxonomy(
    g: GraphView,
    repository_key: Seq<char>,
    item: Seq<char>,
    labels: Seq<Label>,
    milestone: Option<Milestone>,
) -> bool {
    &&& tells_labels(g, item, labels, labels.len() as int)
    &&& milestone matches Some(m) ==> g.links(
        repository_key,
        "milestone:"@ + m.id@,
        "HAS_MILESTONE"@,
    ) && g.links(item, "milestone:"@ + m.id@, "IN_MILESTONE"@)
}

proof fn lemma_taxonomy(
    g: GraphView,
    repository_key: Seq<char>,
    item: Seq<char>,
    labels: Seq<Label>,
    milestone: Option<Milestone>,
)
    requires
        keyed("repository:"@, repository_key),
    ensures
        steps(g, g.with_taxonomy(repository_key, item, labels, milestone)),
        tells_taxonomy(
            g.with_taxonomy(repository_key, item, labels, milestone),
            repository_key,
            item,
            labels,
            milestone,
        ),
{
    lemma_labels(g, item, labels, labels.len());
    let tagged = g.with_labels(item, labels, labels.len());
    if let Some(m) = milestone {
        let key = "milestone:"@ + m.id@;
        lemma_keyed("milestone:"@, m.id@);
        lemma_node(tagged, key, github_model::milestone_view(m), 2);
        let a = tagged.with_node(key, github_model::milestone_view(m), 2);
        let first = "Repository has milestone "@ + m.title@;
        lemma_edge(a, repository_key, key, "HAS_MILESTONE"@, Seq::empty(), first);
        let b = a.with_edge(repository_key, key, "HAS_MILESTONE"@, Seq::empty(), first);
        let second = "GitHub work item is in milestone "@ + m.title@;
        lemma_edge(b, item, key, "IN_MILESTONE"@, Seq::empty(), second);
        let c = b.with_edge(item, key, "IN_MILESTONE"@, Seq::empty(), second);
        lemma_both(tagged, a, b);
        lemma_both(tagged, b, c);
        lemma_both(g, tagged, c);
        lemma_labels_kept(tagged, c, item, labels, labels.len() as int);
    }
}

proof fn lemma_labels_kept(
    before: GraphView,
    after: GraphView,
    item: Seq<char>,
    labels: Seq<Label>,
    upto: int,
)
    requires
        keeps_links(before, after),
        tells_labels(before, item, labels, upto),
    ensures
        tells_labels(after, item, labels, upto),
{
    assert forall|i: int| 0 <= i < upto implies after.links(
        item,
        "label:"@ + (#[trigger] labels[i]).id@,
        "TAGGED"@,
    ) by {
        assert(before.links(item, "label:"@ + labels[i].id@, "TAGGED"@));
    }
}

/// Whether the graph says of a comment what it comments on, and who wrote it.
pub open spec fn tells_comment(
    g: GraphView,
    parent: Seq<char>,
    comment: Comment,
    relationship: Seq<char>,
) -> bool {
    &&& g.links("comment:"@ + comment.id@, parent, relationship)
    &&& tells_author(g, comment.author, "comment:"@ + comment.id@)
}

/// Whether a comment may relate so to what it is about.
pub open spec fn comment_fits(parent: Seq<char>, relationship: Seq<char>) -> bool {
    ||| relationship == "COMMENTS_ON"@
    ||| relationship == "ANSWERS"@ && keyed("discussion:"@, parent)
    ||| relationship == "REPLIES_TO"@ && keyed("comment:"@, parent)
}

proof fn lemma_comment(
    g: GraphView,
    parent: Seq<char>,
    comment: Comment,
    kind: Seq<char>,
    relationship: Seq<char>,
)
    requires
        comment_fits(parent, relationship),
    ensures
        steps(g, g.with_comment(parent, comment, kind, relationship)),
        tells_comment(
            g.with_comment(parent, comment, kind, relationship),
            parent,
            comment,
            relationship,
        ),
{
    let key = "comment:"@ + comment.id@;
    lemma_keyed("comment:"@, comment.id@);
    let view = github_model::comment_view(comment, kind);
    lemma_node(g, key, view, 3);
    let a = g.with_node(key, view, 3);
    let properties = crate::fields::with_time(
        Seq::empty(),
        "created_at"@,
        "created_at_ms"@,
        Some(comment.created_at@),
    );
    let line = "GitHub "@ + kind + " "@ + relationship + ": "@ + crate::fields::summary(
        comment.body_text@,
    );
    lemma_edge(a, key, parent, relationship, properties, line);
    let b = a.with_edge(key, parent, relationship, properties, line);
    lemma_author(b, comment.author, key, kind);
    let c = b.with_author(comment.author, key, kind);
    lemma_both(g, a, b);
    lemma_both(g, b, c);
}

/// Whether the graph says so of the first `upto` comments.
pub open spec fn tells_comments(
    g: GraphView,
    parent: Seq<char>,
    comments: Seq<Comment>,
    relationship: Seq<char>,
    upto: int,
) -> bool {
    forall|i: int|
        0 <= i < upto ==> tells_comment(g, parent, #[trigger] comments[i], relationship)
}

proof fn lemma_comments_kept(
    before: GraphView,
    after: GraphView,
    parent: Seq<char>,
    comments: Seq<Comment>,
    relationship: Seq<char>,
    upto: int,
)
    requires
        keeps_links(before, after),
        tells_comments(before, parent, comments, relationship, upto),
    ensures
        tells_comments(after, parent, comments, relationship, upto),
{
    assert forall|i: int| 0 <= i < upto implies tells_comment(
        after,
        parent,
        #[trigger] comments[i],
        relationship,
    ) by {
        assert(tells_comment(before, parent, comments[i], relationship));
        assert(before.links("comment:"@ + comments[i].id@, parent, relationship));
    }
}

proof fn lemma_comments(
    g: GraphView,
    parent: Seq<char>,
    comments: Seq<Comment>,
    kind: Seq<char>,
    relationship: Seq<char>,
    upto: nat,
)
    requires
        comment_fits(parent, relationship),
    ensures
        steps(g, g.with_comments(parent, comments, kind, relationship, upto)),
        tells_comments(
            g.with_comments(parent, comments, kind, relationship, upto),
            parent,
            comments,
            relationship,
            upto as int,
        ),
    decreases upto,
{
    if upto > 0 {
        let less = (upto - 1) as nat;
        lemma_comments(g, parent, comments, kind, relationship, less);
        let before = g.with_comments(parent, comments, kind, relationship, less);
        lemma_comment(before, parent, comments[upto - 1], kind, relationship);
        let now = g.with_comments(parent, comments, kind, relationship, upto);
        lemma_both(g, before, now);
        lemma_comments_kept(before, now, parent, comments, relationship, less as int);
    }
}

/// Whether the graph says of the first `upto` reviews what they review, and
/// who wrote them.
pub open spec fn tells_reviews(
    g: GraphView,
    pull_request_key: Seq<char>,
    reviews: Seq<Review>,
    upto: int,
) -> bool {
    forall|i: int|
        0 <= i < upto ==> g.links(
            "review:"@ + (#[trigger] reviews[i]).id@,
            pull_request_key,
            "REVIEWS"@,
        ) && tells_author(g, reviews[i].author, "review:"@ + reviews[i].id@)
}

proof fn lemma_reviews_kept(
    before: GraphView,
    after: GraphView,
    key: Seq<char>,
    reviews: Seq<Review>,
    upto: int,
)
    requires
        keeps_links(before, after),
        tells_reviews(before, key, reviews, upto),
    ensures
        tells_reviews(after, key, reviews, upto),
{
    assert forall|i: int| 0 <= i < upto implies after.links(
        "review:"@ + (#[trigger] reviews[i]).id@,
        key,
        "REVIEWS"@,
    ) && tells_author(after, reviews[i].author, "review:"@ + reviews[i].id@) by {
        assert(before.links("review:"@ + reviews[i].id@, key, "REVIEWS"@));
        assert(tells_author(before, reviews[i].author, "review:"@ + reviews[i].id@));
    }
}

proof fn lemma_review(g: GraphView, key: Seq<char>, number: i64, review: Review)
    requires
        keyed("pull-request:"@, key),
    ensures
        steps(g, g.with_review(key, number, review)),
        g.with_review(key, number, review).links("review:"@ + review.id@, key, "REVIEWS"@),
        tells_author(g.with_review(key, number, review), review.author, "review:"@ + review.id@),
{
    let own = "review:"@ + review.id@;
    lemma_keyed("review:"@, review.id@);
    let view = github_model::review_view(review);
    lemma_node(g, own, view, 3);
    let a = g.with_node(own, view, 3);
    let properties = seq![github_model::text_field("state"@, review.state@)];
    let line = review.state@ + " review of pull request #"@ + github_model::num(number) + ": "@
        + crate::fields::summary(review.body_text@);
    lemma_edge(a, own, key, "REVIEWS"@, properties, line);
    let b = a.with_edge(own, key, "REVIEWS"@, properties, line);
    lemma_author(b, review.author, own, "pull request review"@);
    let c = b.with_author(review.author, own, "pull request review"@);
    lemma_both(g, a, b);
    lemma_both(g, b, c);
}

proof fn lemma_reviews(g: GraphView, key: Seq<char>, number: i64, reviews: Seq<Review>, upto: nat)
    requires
        keyed("pull-request:"@, key),
    ensures
        steps(g, g.with_reviews(key, number, reviews, upto)),
        tells_reviews(g.with_reviews(key, number, reviews, upto), key, reviews, upto as int),
    decreases upto,
{
    if upto > 0 {
        let less = (upto - 1) as nat;
        lemma_reviews(g, key, number, reviews, less);
        let before = g.with_reviews(key, number, reviews, less);
        lemma_review(before, key, number, reviews[upto - 1]);
        let now = g.with_reviews(key, number, reviews, upto);
        lemma_both(g, before, now);
        lemma_reviews_kept(before, now, key, reviews, less as int);
    }
}

/// Whether the graph says of the pull request that it has the commit, and of
/// the commit who wrote it.
pub open spec fn tells_commit(g: GraphView, pull_request_key: Seq<char>, commit: Commit) -> bool {
    &&& g.links(pull_request_key, "commit:"@ + commit.oid@, "HAS_COMMIT"@)
    &&& commit.author matches Some(author) ==> tells_author(
        g,
        author.user,
        "commit:"@ + commit.oid@,
    )
}

/// Whether the graph says so of the first `upto` commits.
pub open spec fn tells_commits(
    g: GraphView,
    pull_request_key: Seq<char>,
    commits: Seq<PullRequestCommit>,
    upto: int,
) -> bool {
    forall|i: int|
        0 <= i < upto ==> tells_commit(g, pull_request_key, (#[trigger] commits[i]).commit)
}

proof fn lemma_commits_kept(
    before: GraphView,
    after: GraphView,
    key: Seq<char>,
    commits: Seq<PullRequestCommit>,
    upto: int,
)
    requires
        keeps_links(before, after),
        tells_commits(before, key, commits, upto),
    ensures
        tells_commits(after, key, commits, upto),
{
    assert forall|i: int| 0 <= i < upto implies tells_commit(
        after,
        key,
        (#[trigger] commits[i]).commit,
    ) by {
        assert(tells_commit(before, key, commits[i].commit));
        assert(before.links(key, "commit:"@ + commits[i].commit.oid@, "HAS_COMMIT"@));
    }
}

proof fn lemma_commit(g: GraphView, key: Seq<char>, number: i64, commit: Commit, complete: bool)
    requires
        keyed("pull-request:"@, key),
    ensures
        steps(g, g.with_commit(key, number, commit, complete)),
        tells_commit(g.with_commit(key, number, commit, complete), key, commit),
{
    let own = "commit:"@ + commit.oid@;
    lemma_keyed("commit:"@, commit.oid@);
    let view = github_model::commit_view(commit);
    let rank: u8 = if complete {
        3
    } else {
        1
    };
    lemma_node(g, own, view, rank);
    let a = g.with_node(own, view, rank);
    let line = "Pull request #"@ + github_model::num(number) + " includes commit "@
        + crate::fields::short(commit.oid@) + ": "@ + commit.message_headline@;
    lemma_edge(a, key, own, "HAS_COMMIT"@, Seq::empty(), line);
    let b = a.with_edge(key, own, "HAS_COMMIT"@, Seq::empty(), line);
    lemma_both(g, a, b);
    if let Some(author) = commit.author {
        let what = "commit "@ + crate::fields::short(commit.oid@);
        lemma_author(b, author.user, own, what);
        lemma_both(g, b, b.with_author(author.user, own, what));
    }
}

proof fn lemma_commits(
    g: GraphView,
    key: Seq<char>,
    number: i64,
    commits: Seq<PullRequestCommit>,
    upto: nat,
)
    requires
        keyed("pull-request:"@, key),
    ensures
        steps(g, g.with_commits(key, number, commits, upto)),
        tells_commits(g.with_commits(key, number, commits, upto), key, commits, upto as int),
    decreases upto,
{
    if upto > 0 {
        let less = (upto - 1) as nat;
        lemma_commits(g, key, number, commits, less);
        let before = g.with_commits(key, number, commits, less);
        lemma_commit(before, key, number, commits[upto - 1].commit, true);
        let now = g.with_commits(key, number, commits, upto);
        lemma_both(g, before, now);
        lemma_commits_kept(before, now, key, commits, less as int);
    }
}

/// Whether the graph says of the first `upto` files that the repository
/// contains them and the pull request changes them.
pub open spec fn tells_files(
    g: GraphView,
    repository_key: Seq<char>,
    pull_request_key: Seq<char>,
    files: Seq<ChangedFile>,
    upto: int,
) -> bool {
    forall|i: int|
        0 <= i < upto ==> g.links(
            repository_key,
            "file:"@ + (#[trigger] files[i]).path@,
            "CONTAINS_FILE"@,
        ) && g.links(pull_request_key, "file:"@ + files[i].path@, "CHANGES"@)
}

proof fn lemma_file(
    g: GraphView,
    repository_key: Seq<char>,
    key: Seq<char>,
    number: i64,
    file: ChangedFile,
)
    requires
        keyed("repository:"@, repository_key),
        keyed("pull-request:"@, key),
    ensures
        steps(g, g.with_file(repository_key, key, number, file)),
        g.with_file(repository_key, key, number, file).links(
            repository_key,
            "file:"@ + file.path@,
            "CONTAINS_FILE"@,
        ),
        g.with_file(repository_key, key, number, file).links(
            key,
            "file:"@ + file.path@,
            "CHANGES"@,
        ),
{
    let own = "file:"@ + file.path@;
    lemma_keyed("file:"@, file.path@);
    let node = engineering::node_of(
        "File"@,
        seq![github_model::text_field("path"@, file.path@)],
        seq!["Repository file path "@ + file.path@],
        file.path@,
    );
    lemma_node(g, own, node, 2);
    let a = g.with_node(own, node, 2);
    let first = "Repository contains file "@ + file.path@;
    lemma_edge(a, repository_key, own, "CONTAINS_FILE"@, Seq::empty(), first);
    let b = a.with_edge(repository_key, own, "CONTAINS_FILE"@, Seq::empty(), first);
    let properties = seq![
        github_model::int_field("additions"@, file.additions),
        github_model::int_field("deletions"@, file.deletions),
        github_model::text_field("change_type"@, file.change_type@),
    ];
    let second = "Pull request #"@ + github_model::num(number) + " "@ + crate::text::spec_lowercase(
        file.change_type@,
    ) + " file "@ + file.path@ + (" with "@ + github_model::num(file.additions)
        + " additions and "@ + github_model::num(file.deletions) + " deletions"@);
    lemma_edge(b, key, own, "CHANGES"@, properties, second);
    let c = b.with_edge(key, own, "CHANGES"@, properties, second);
    lemma_both(g, a, b);
    lemma_both(g, b, c);
}

proof fn lemma_files(
    g: GraphView,
    repository_key: Seq<char>,
    key: Seq<char>,
    number: i64,
    files: Seq<ChangedFile>,
    upto: nat,
)
    requires
        keyed("repository:"@, repository_key),
        keyed("pull-request:"@, key),
    ensures
        steps(g, g.with_files(repository_key, key, number, files, upto)),
        tells_files(
            g.with_files(repository_key, key, number, files, upto),
            repository_key,
            key,
            files,
            upto as int,
        ),
    decreases upto,
{
    if upto > 0 {
        let less = (upto - 1) as nat;
        lemma_files(g, repository_key, key, number, files, less);
        let before = g.with_files(repository_key, key, number, files, less);
        lemma_file(before, repository_key, key, number, files[upto - 1]);
        let now = g.with_files(repository_key, key, number, files, upto);
        lemma_both(g, before, now);
        assert forall|i: int| 0 <= i < upto implies now.links(
            repository_key,
            "file:"@ + (#[trigger] files[i]).path@,
            "CONTAINS_FILE"@,
        ) && now.links(key, "file:"@ + files[i].path@, "CHANGES"@) by {
            if i < less {
                assert(before.links(repository_key, "file:"@ + files[i].path@, "CONTAINS_FILE"@));
                assert(before.links(key, "file:"@ + files[i].path@, "CHANGES"@));
            }
        }
    }
}

proof fn lemma_files_kept(
    before: GraphView,
    after: GraphView,
    repository_key: Seq<char>,
    key: Seq<char>,
    files: Seq<ChangedFile>,
    upto: int,
)
    requires
        keeps_links(before, after),
        tells_files(before, repository_key, key, files, upto),
    ensures
        tells_files(after, repository_key, key, files, upto),
{
    assert forall|i: int| 0 <= i < upto implies after.links(
        repository_key,
        "file:"@ + (#[trigger] files[i]).path@,
        "CONTAINS_FILE"@,
    ) && after.links(key, "file:"@ + files[i].path@, "CHANGES"@) by {
        assert(before.links(repository_key, "file:"@ + files[i].path@, "CONTAINS_FILE"@));
        assert(before.links(key, "file:"@ + files[i].path@, "CHANGES"@));
    }
}

proof fn lemma_assignees_kept(
    before: GraphView,
    after: GraphView,
    item: Seq<char>,
    assignees: Seq<Actor>,
    upto: int,
)
    requires
        keeps_links(before, after),
        tells_assignees(before, item, assignees, upto),
    ensures
        tells_assignees(after, item, assignees, upto),
{
    assert forall|i: int| 0 <= i < upto implies after.links(
        item,
        github_model::actor_key(#[trigger] assignees[i]),
        "ASSIGNED_TO"@,
    ) by {
        assert(before.links(item, github_model::actor_key(assignees[i]), "ASSIGNED_TO"@));
    }
}

/// Whether the graph tells of an issue whose it is, who wrote it, what it is
/// tagged with, to whom it is assigned and who commented on it.
pub open spec fn tells_issue(g: GraphView, repository_key: Seq<char>, issue: Issue) -> bool {
    let key = "issue:"@ + issue.id@;
    &&& g.links(repository_key, key, "HAS_ISSUE"@)
    &&& tells_author(g, issue.author, key)
    &&& tells_taxonomy(g, repository_key, key, issue.labels.nodes@, issue.milestone)
    &&& tells_assignees(g, key, issue.assignees.nodes@, issue.assignees.nodes@.len() as int)
    &&& tells_comments(
        g,
        key,
        issue.comments.nodes@,
        "COMMENTS_ON"@,
        issue.comments.nodes@.len() as int,
    )
}

proof fn lemma_issue_kept(
    before: GraphView,
    after: GraphView,
    repository_key: Seq<char>,
    issue: Issue,
)
    requires
        keeps_links(before, after),
        tells_issue(before, repository_key, issue),
    ensures
        tells_issue(after, repository_key, issue),
{
    let key = "issue:"@ + issue.id@;
    lemma_labels_kept(before, after, key, issue.labels.nodes@, issue.labels.nodes@.len() as int);
    lemma_assignees_kept(
        before,
        after,
        key,
        issue.assignees.nodes@,
        issue.assignees.nodes@.len() as int,
    );
    lemma_comments_kept(
        before,
        after,
        key,
        issue.comments.nodes@,
        "COMMENTS_ON"@,
        issue.comments.nodes@.len() as int,
    );
    assert(before.links(repository_key, key, "HAS_ISSUE"@));
    if let Some(m) = issue.milestone {
        assert(before.links(repository_key, "milestone:"@ + m.id@, "HAS_MILESTONE"@));
        assert(before.links(key, "milestone:"@ + m.id@, "IN_MILESTONE"@));
    }
}

proof fn lemma_issue_alone(g: GraphView, repository_key: Seq<char>, issue: Issue, complete: bool)
    requires
        keyed("repository:"@, repository_key),
    ensures
        steps(g, g.with_issue_alone(repository_key, issue, complete)),
        tells_issue(g.with_issue_alone(repository_key, issue, complete), repository_key, issue),
{
    reveal(GraphView::with_issue_alone);
    let key = "issue:"@ + issue.id@;
    lemma_keyed("issue:"@, issue.id@);
    let number = github_model::num(issue.number);
    let view = github_items::issue_view(issue, complete);
    let rank = github_items::detail_rank(complete);
    lemma_node(g, key, view, rank);
    let a = g.with_node(key, view, rank);
    let line = "Repository contains GitHub issue #"@ + number + ": "@ + issue.title@;
    lemma_edge(a, repository_key, key, "HAS_ISSUE"@, Seq::empty(), line);
    let b = a.with_edge(repository_key, key, "HAS_ISSUE"@, Seq::empty(), line);
    lemma_author(b, issue.author, key, "issue #"@ + number);
    let c = b.with_author(issue.author, key, "issue #"@ + number);
    let labels = issue.labels.nodes@;
    lemma_taxonomy(c, repository_key, key, labels, issue.milestone);
    let d = c.with_taxonomy(repository_key, key, labels, issue.milestone);
    let assignees = issue.assignees.nodes@;
    lemma_assignees(d, key, assignees, "issue #"@ + number, assignees.len());
    let e = d.with_assignees(key, assignees, "issue #"@ + number, assignees.len());
    let comments = issue.comments.nodes@;
    lemma_comments(e, key, comments, "IssueComment"@, "COMMENTS_ON"@, comments.len());
    let f = e.with_comments(key, comments, "IssueComment"@, "COMMENTS_ON"@, comments.len());
    lemma_both(g, a, b);
    lemma_both(g, b, c);
    lemma_both(g, c, d);
    lemma_both(g, d, e);
    lemma_both(g, e, f);
    lemma_both(d, e, f);
    lemma_both(c, d, f);
    lemma_both(b, c, f);
    lemma_labels_kept(d, f, key, labels, labels.len() as int);
    lemma_assignees_kept(e, f, key, assignees, assignees.len() as int);
    assert(b.links(repository_key, key, "HAS_ISSUE"@));
    assert(tells_author(c, issue.author, key));
    assert(f == g.with_issue_alone(repository_key, issue, complete));
}

/// Whether the graph tells of a pull request whose it is, who wrote it, what
/// it is tagged with, to whom it is assigned, who commented on it and reviewed
/// it, which commits it has and which files it changes.
pub open spec fn tells_pull_request(
    g: GraphView,
    repository_key: Seq<char>,
    pull_request: PullRequest,
) -> bool {
    let key = "pull-request:"@ + pull_request.id@;
    &&& g.links(repository_key, key, "HAS_PULL_REQUEST"@)
    &&& tells_author(g, pull_request.author, key)
    &&& tells_taxonomy(g, repository_key, key, pull_request.labels.nodes@, pull_request.milestone)
    &&& tells_assignees(
        g,
        key,
        pull_request.assignees.nodes@,
        pull_request.assignees.nodes@.len() as int,
    )
    &&& tells_comments(
        g,
        key,
        pull_request.comments.nodes@,
        "COMMENTS_ON"@,
        pull_request.comments.nodes@.len() as int,
    )
    &&& tells_reviews(g, key, pull_request.reviews.nodes@, pull_request.reviews.nodes@.len() as int)
    &&& tells_commits(g, key, pull_request.commits.nodes@, pull_request.commits.nodes@.len() as int)
    &&& tells_files(
        g,
        repository_key,
        key,
        pull_request.files.nodes@,
        pull_request.files.nodes@.len() as int,
    )
}

proof fn lemma_pull_request_kept(
    before: GraphView,
    after: GraphView,
    repository_key: Seq<char>,
    pull_request: PullRequest,
)
    requires
        keeps_links(before, after),
        tells_pull_request(before, repository_key, pull_request),
    ensures
        tells_pull_request(after, repository_key, pull_request),
{
    let key = "pull-request:"@ + pull_request.id@;
    let labels = pull_request.labels.nodes@;
    let assignees = pull_request.assignees.nodes@;
    let comments = pull_request.comments.nodes@;
    let reviews = pull_request.reviews.nodes@;
    let commits = pull_request.commits.nodes@;
    let files = pull_request.files.nodes@;
    lemma_labels_kept(before, after, key, labels, labels.len() as int);
    lemma_assignees_kept(before, after, key, assignees, assignees.len() as int);
    lemma_comments_kept(before, after, key, comments, "COMMENTS_ON"@, comments.len() as int);
    lemma_reviews_kept(before, after, key, reviews, reviews.len() as int);
    lemma_commits_kept(before, after, key, commits, commits.len() as int);
    lemma_files_kept(before, after, repository_key, key, files, files.len() as int);
    assert(before.links(repository_key, key, "HAS_PULL_REQUEST"@));
    if let Some(m) = pull_request.milestone {
        assert(before.links(repository_key, "milestone:"@ + m.id@, "HAS_MILESTONE"@));
        assert(before.links(key, "milestone:"@ + m.id@, "IN_MILESTONE"@));
    }
}

proof fn lemma_pull_request_alone(
    g: GraphView,
    repository_key: Seq<char>,
    pull_request: PullRequest,
    complete: bool,
)
    requires
        keyed("repository:"@, repository_key),
    ensures
        steps(g, g.with_pull_request_alone(repository_key, pull_request, complete)),
        tells_pull_request(
            g.with_pull_request_alone(repository_key, pull_request, complete),
            repository_key,
            pull_request,
        ),
{
    reveal(GraphView::with_pull_request_alone);
    let key = "pull-request:"@ + pull_request.id@;
    lemma_keyed("pull-request:"@, pull_request.id@);
    let number = github_model::num(pull_request.number);
    let view = github_items::pull_request_view(pull_request, complete);
    let rank = github_items::detail_rank(complete);
    lemma_node(g, key, view, rank);
    let a = g.with_node(key, view, rank);
    let line = "Repository contains GitHub pull request #"@ + number + ": "@ + pull_request.title@;
    lemma_edge(a, repository_key, key, "HAS_PULL_REQUEST"@, Seq::empty(), line);
    let b = a.with_edge(repository_key, key, "HAS_PULL_REQUEST"@, Seq::empty(), line);
    let what = "pull request #"@ + number;
    lemma_author(b, pull_request.author, key, what);
    let c = b.with_author(pull_request.author, key, what);
    let labels = pull_request.labels.nodes@;
    lemma_taxonomy(c, repository_key, key, labels, pull_request.milestone);
    let d = c.with_taxonomy(repository_key, key, labels, pull_request.milestone);
    let assignees = pull_request.assignees.nodes@;
    lemma_assignees(d, key, assignees, what, assignees.len());
    let e = d.with_assignees(key, assignees, what, assignees.len());
    let comments = pull_request.comments.nodes@;
    lemma_comments(e, key, comments, "PullRequestComment"@, "COMMENTS_ON"@, comments.len());
    let f = e.with_comments(
        key,
        comments,
        "PullRequestComment"@,
        "COMMENTS_ON"@,
        comments.len(),
    );
    let reviews = pull_request.reviews.nodes@;
    lemma_reviews(f, key, pull_request.number, reviews, reviews.len());
    let h = f.with_reviews(key, pull_request.number, reviews, reviews.len());
    let commits = pull_request.commits.nodes@;
    lemma_commits(h, key, pull_request.number, commits, commits.len());
    let i = h.with_commits(key, pull_request.number, commits, commits.len());
    let files = pull_request.files.nodes@;
    lemma_files(i, repository_key, key, pull_request.number, files, files.len());
    let j = i.with_files(repository_key, key, pull_request.number, files, files.len());
    lemma_both(h, i, j);
    lemma_both(f, h, j);
    lemma_both(e, f, j);
    lemma_both(d, e, j);
    lemma_both(c, d, j);
    lemma_both(b, c, j);
    lemma_both(a, b, j);
    lemma_both(g, a, j);
    lemma_labels_kept(d, j, key, labels, labels.len() as int);
    lemma_assignees_kept(e, j, key, assignees, assignees.len() as int);
    lemma_comments_kept(f, j, key, comments, "COMMENTS_ON"@, comments.len() as int);
    lemma_reviews_kept(h, j, key, reviews, reviews.len() as int);
    lemma_commits_kept(i, j, key, commits, commits.len() as int);
    assert(b.links(repository_key, key, "HAS_PULL_REQUEST"@));
    assert(tells_author(c, pull_request.author, key));
    if let Some(m) = pull_request.milestone {
        assert(d.links(repository_key, "milestone:"@ + m.id@, "HAS_MILESTONE"@));
        assert(d.links(key, "milestone:"@ + m.id@, "IN_MILESTONE"@));
    }
    assert(j == g.with_pull_request_alone(repository_key, pull_request, complete));
}

/// Whether the graph says of an issue which of the first `upto` pull requests
/// close it.
pub open spec fn tells_closers(g: GraphView, issue: Issue, upto: int) -> bool {
    forall|i: int|
        0 <= i < upto ==> g.links(
            "pull-request:"@ + (#[trigger] issue.closed_by_pull_requests@[i]).id@,
            "issue:"@ + issue.id@,
            "CLOSES"@,
        )
}

/// Whether the graph says of a pull request which of the first `upto` issues
/// it closes.
pub open spec fn tells_closed(g: GraphView, pull_request: PullRequest, upto: int) -> bool {
    forall|i: int|
        0 <= i < upto ==> g.links(
            "pull-request:"@ + pull_request.id@,
            "issue:"@ + (#[trigger] pull_request.closing_issues@[i]).id@,
            "CLOSES"@,
        )
}

/// Adding an issue to the repository makes every relationship that its record
/// tells of: the repository has the issue, the author authored it, it is
/// tagged and assigned, the comments comment on it, and the pull requests that
/// close it do. No relationship is lost, and none is made that does not fit.
pub proof fn law_issues_are_told(
    g: GraphView,
    repository_key: Seq<char>,
    issue: Issue,
    complete: bool,
)
    requires
        keyed("repository:"@, repository_key),
    ensures
        steps(g, g.with_issue(repository_key, issue, complete)),
        tells_issue(g.with_issue(repository_key, issue, complete), repository_key, issue),
        tells_closers(
            g.with_issue(repository_key, issue, complete),
            issue,
            issue.closed_by_pull_requests@.len() as int,
        ),
    decreases issue, 1int, 0int,
{
    lemma_issue_alone(g, repository_key, issue, complete);
    let alone = g.with_issue_alone(repository_key, issue, complete);
    let upto = issue.closed_by_pull_requests@.len() as int;
    lemma_closers(alone, repository_key, issue, upto);
    let now = g.with_issue(repository_key, issue, complete);
    lemma_both(g, alone, now);
    lemma_issue_kept(alone, now, repository_key, issue);
}

proof fn lemma_closers(g: GraphView, repository_key: Seq<char>, issue: Issue, upto: int)
    requires
        keyed("repository:"@, repository_key),
        0 <= upto <= issue.closed_by_pull_requests@.len(),
    ensures
        steps(g, g.with_closers(repository_key, issue, upto)),
        tells_closers(g.with_closers(repository_key, issue, upto), issue, upto),
    decreases issue, 0int, upto,
{
    if upto > 0 {
        let pull_request = issue.closed_by_pull_requests@[upto - 1];
        lemma_closers(g, repository_key, issue, upto - 1);
        let before = g.with_closers(repository_key, issue, upto - 1);
        assert(decreases_to!(issue => issue.closed_by_pull_requests@[upto - 1]));
        law_pull_requests_are_told(before, repository_key, pull_request, false);
        let added = before.with_pull_request(repository_key, pull_request, false);
        lemma_keyed("pull-request:"@, pull_request.id@);
        lemma_keyed("issue:"@, issue.id@);
        lemma_edge(
            added,
            "pull-request:"@ + pull_request.id@,
            "issue:"@ + issue.id@,
            "CLOSES"@,
            Seq::empty(),
            github_items::closes_text(pull_request.number, issue.number, issue.title@),
        );
        let now = g.with_closers(repository_key, issue, upto);
        lemma_both(before, added, now);
        lemma_both(g, before, now);
        assert forall|i: int| 0 <= i < upto implies now.links(
            "pull-request:"@ + (#[trigger] issue.closed_by_pull_requests@[i]).id@,
            "issue:"@ + issue.id@,
            "CLOSES"@,
        ) by {
            if i < upto - 1 {
                assert(before.links(
                    "pull-request:"@ + issue.closed_by_pull_requests@[i].id@,
                    "issue:"@ + issue.id@,
                    "CLOSES"@,
                ));
            }
        }
    }
}

/// Adding a pull request to the repository makes every relationship that its
/// record tells of: the repository has it, the author authored it, it is
/// tagged and assigned, the comments comment on it, the reviews review it, it
/// has its commits, changes its files and closes the issues that it closes. No
/// relationship is lost, and none is made that does not fit.
pub proof fn law_pull_requests_are_told(
    g: GraphView,
    repository_key: Seq<char>,
    pull_request: PullRequest,
    complete: bool,
)
    requires
        keyed("repository:"@, repository_key),
    ensures
        steps(g, g.with_pull_request(repository_key, pull_request, complete)),
        tells_pull_request(
            g.with_pull_request(repository_key, pull_request, complete),
            repository_key,
            pull_request,
        ),
        tells_closed(
            g.with_pull_request(repository_key, pull_request, complete),
            pull_request,
            pull_request.closing_issues@.len() as int,
        ),
    decreases pull_request, 1int, 0int,
{
    lemma_pull_request_alone(g, repository_key, pull_request, complete);
    let alone = g.with_pull_request_alone(repository_key, pull_request, complete);
    let upto = pull_request.closing_issues@.len() as int;
    lemma_closed(alone, repository_key, pull_request, upto);
    let now = g.with_pull_request(repository_key, pull_request, complete);
    lemma_both(g, alone, now);
    lemma_pull_request_kept(alone, now, repository_key, pull_request);
}

proof fn lemma_closed(
    g: GraphView,
    repository_key: Seq<char>,
    pull_request: PullRequest,
    upto: int,
)
    requires
        keyed("repository:"@, repository_key),
        0 <= upto <= pull_request.closing_issues@.len(),
    ensures
        steps(g, g.with_closed(repository_key, pull_request, upto)),
        tells_closed(g.with_closed(repository_key, pull_request, upto), pull_request, upto),
    decreases pull_request, 0int, upto,
{
    if upto > 0 {
        let issue = pull_request.closing_issues@[upto - 1];
        lemma_closed(g, repository_key, pull_request, upto - 1);
        let before = g.with_closed(repository_key, pull_request, upto - 1);
        assert(decreases_to!(pull_request => pull_request.closing_issues@[upto - 1]));
        law_issues_are_told(before, repository_key, issue, false);
        let added = before.with_issue(repository_key, issue, false);
        lemma_keyed("pull-request:"@, pull_request.id@);
        lemma_keyed("issue:"@, issue.id@);
        lemma_edge(
            added,
            "pull-request:"@ + pull_request.id@,
            "issue:"@ + issue.id@,
            "CLOSES"@,
            Seq::empty(),
            github_items::closes_text(pull_request.number, issue.number, issue.title@),
        );
        let now = g.with_closed(repository_key, pull_request, upto);
        lemma_both(before, added, now);
        lemma_both(g, before, now);
        assert forall|i: int| 0 <= i < upto implies now.links(
            "pull-request:"@ + pull_request.id@,
            "issue:"@ + (#[trigger] pull_request.closing_issues@[i]).id@,
            "CLOSES"@,
        ) by {
            if i < upto - 1 {
                assert(before.links(
                    "pull-request:"@ + pull_request.id@,
                    "issue:"@ + pull_request.closing_issues@[i].id@,
                    "CLOSES"@,
                ));
            }
        }
    }
}

/// Adding a repository says which topics it has.
pub proof fn law_repositories_are_told(g: GraphView, repository: Repository)
    ensures
        steps(g, g.with_repository(repository)),
        forall|i: int|
            0 <= i < repository.repository_topics@.len() ==> g.with_repository(repository).links(
                "repository:"@ + repository.id@,
                "topic:"@ + crate::text::spec_lowercase((#[trigger] repository.repository_topics@[i])@),
                "HAS_TOPIC"@,
            ),
{
    let key = "repository:"@ + repository.id@;
    lemma_keyed("repository:"@, repository.id@);
    let view = github_model::repository_view(repository);
    lemma_node(g, key, view, 3);
    let a = g.with_node(key, view, 3);
    let topics = repository.repository_topics@;
    lemma_topics(a, key, repository.name_with_owner@, topics, topics.len());
    lemma_both(g, a, g.with_repository(repository));
}

proof fn lemma_topics(
    g: GraphView,
    key: Seq<char>,
    name: Seq<char>,
    topics: Seq<String>,
    upto: nat,
)
    requires
        keyed("repository:"@, key),
    ensures
        steps(g, g.with_topics(key, name, topics, upto)),
        forall|i: int|
            0 <= i < upto ==> g.with_topics(key, name, topics, upto).links(
                key,
                "topic:"@ + crate::text::spec_lowercase((#[trigger] topics[i])@),
                "HAS_TOPIC"@,
            ),
    decreases upto,
{
    if upto > 0 {
        let less = (upto - 1) as nat;
        lemma_topics(g, key, name, topics, less);
        let before = g.with_topics(key, name, topics, less);
        let topic = topics[upto - 1]@;
        let own = "topic:"@ + crate::text::spec_lowercase(topic);
        lemma_keyed("topic:"@, crate::text::spec_lowercase(topic));
        let node = engineering::node_of(
            "Topic"@,
            seq![github_model::text_field("name"@, topic)],
            seq!["GitHub repository topic "@ + topic],
            topic,
        );
        lemma_node(before, own, node, 2);
        let known = before.with_node(own, node, 2);
        lemma_edge(
            known,
            key,
            own,
            "HAS_TOPIC"@,
            Seq::empty(),
            name + " has repository topic "@ + topic,
        );
        let now = g.with_topics(key, name, topics, upto);
        lemma_both(before, known, now);
        lemma_both(g, before, now);
        assert forall|i: int| 0 <= i < upto implies now.links(
            key,
            "topic:"@ + crate::text::spec_lowercase((#[trigger] topics[i])@),
            "HAS_TOPIC"@,
        ) by {
            if i < less {
                assert(before.links(
                    key,
                    "topic:"@ + crate::text::spec_lowercase(topics[i]@),
                    "HAS_TOPIC"@,
                ));
            }
        }
    }
}

/// How a comment of a discussion relates to it: as its answer where it is the
/// one that was chosen, and as a comment else.
pub open spec fn answers(discussion: Discussion, comment: Comment) -> bool {
    discussion.answer is Some && discussion.answer->0.id@ == comment.id@
}

/// Whether the graph tells of the first `upto` comments of a discussion how
/// they relate to it, and who replied to them.
pub open spec fn tells_discussed(g: GraphView, discussion: Discussion, upto: int) -> bool {
    forall|i: int|
        0 <= i < upto ==> {
            let comment = #[trigger] discussion.comments.nodes@[i];
            &&& tells_comment(
                g,
                "discussion:"@ + discussion.id@,
                comment,
                if answers(discussion, comment) {
                    "ANSWERS"@
                } else {
                    "COMMENTS_ON"@
                },
            )
            &&& tells_comments(
                g,
                "comment:"@ + comment.id@,
                comment.replies@,
                "REPLIES_TO"@,
                comment.replies@.len() as int,
            )
        }
}

proof fn lemma_discussed(g: GraphView, discussion: Discussion, upto: nat)
    requires
        upto <= discussion.comments.nodes@.len(),
    ensures
        steps(g, g.with_discussed(discussion, upto)),
        tells_discussed(g.with_discussed(discussion, upto), discussion, upto as int),
    decreases upto,
{
    if upto > 0 {
        let less = (upto - 1) as nat;
        lemma_discussed(g, discussion, less);
        let before = g.with_discussed(discussion, less);
        let parent = "discussion:"@ + discussion.id@;
        lemma_keyed("discussion:"@, discussion.id@);
        let comment = discussion.comments.nodes@[upto - 1];
        let relationship = github_items::discussion_relationship(discussion, comment);
        lemma_comment(before, parent, comment, "DiscussionComment"@, relationship);
        let told = before.with_comment(parent, comment, "DiscussionComment"@, relationship);
        lemma_keyed("comment:"@, comment.id@);
        let replies = comment.replies@;
        lemma_comments(
            told,
            "comment:"@ + comment.id@,
            replies,
            "DiscussionReply"@,
            "REPLIES_TO"@,
            replies.len(),
        );
        let now = g.with_discussed(discussion, upto);
        lemma_both(before, told, now);
        lemma_both(g, before, now);
        assert(tells_comment(now, parent, comment, relationship)) by {
            assert(told.links("comment:"@ + comment.id@, parent, relationship));
        }
        assert forall|i: int| 0 <= i < upto implies {
            let comment = #[trigger] discussion.comments.nodes@[i];
            &&& tells_comment(
                now,
                "discussion:"@ + discussion.id@,
                comment,
                if answers(discussion, comment) {
                    "ANSWERS"@
                } else {
                    "COMMENTS_ON"@
                },
            )
            &&& tells_comments(
                now,
                "comment:"@ + comment.id@,
                comment.replies@,
                "REPLIES_TO"@,
                comment.replies@.len() as int,
            )
        } by {
            if i < less {
                let own = discussion.comments.nodes@[i];
                let how = if answers(discussion, own) {
                    "ANSWERS"@
                } else {
                    "COMMENTS_ON"@
                };
                assert(tells_comment(before, parent, own, how));
                assert(before.links("comment:"@ + own.id@, parent, how));
                lemma_comments_kept(
                    before,
                    now,
                    "comment:"@ + own.id@,
                    own.replies@,
                    "REPLIES_TO"@,
                    own.replies@.len() as int,
                );
            }
        }
    }
}

/// Adding a discussion makes every relationship that its record tells of: the
/// repository has it, its author authored it, it is in its category, and its
/// comments answer or comment on it and are replied to.
pub proof fn law_discussions_are_told(
    g: GraphView,
    repository_key: Seq<char>,
    discussion: Discussion,
)
    requires
        keyed("repository:"@, repository_key),
    ensures
        steps(g, g.with_discussion(repository_key, discussion)),
        ({
            let now = g.with_discussion(repository_key, discussion);
            let key = "discussion:"@ + discussion.id@;
            let category = "discussion-category:"@ + discussion.category.id@;
            &&& now.links(repository_key, key, "HAS_DISCUSSION"@)
            &&& tells_author(now, discussion.author, key)
            &&& now.links(repository_key, category, "HAS_DISCUSSION_CATEGORY"@)
            &&& now.links(key, category, "IN_CATEGORY"@)
            &&& tells_discussed(now, discussion, discussion.comments.nodes@.len() as int)
        }),
{
    let key = "discussion:"@ + discussion.id@;
    let number = github_model::num(discussion.number);
    let category = discussion.category;
    let group = "discussion-category:"@ + category.id@;
    lemma_keyed("discussion:"@, discussion.id@);
    lemma_keyed("discussion-category:"@, category.id@);
    let view = github_items::discussion_view(discussion);
    lemma_node(g, key, view, 3);
    let a = g.with_node(key, view, 3);
    let first = "Repository contains GitHub discussion #"@ + number + ": "@ + discussion.title@;
    lemma_edge(a, repository_key, key, "HAS_DISCUSSION"@, Seq::empty(), first);
    let b = a.with_edge(repository_key, key, "HAS_DISCUSSION"@, Seq::empty(), first);
    let what = "discussion #"@ + number;
    lemma_author(b, discussion.author, key, what);
    let c = b.with_author(discussion.author, key, what);
    let kind = github_items::category_view(category);
    lemma_node(c, group, kind, 2);
    let d = c.with_node(group, kind, 2);
    let second = "Repository has GitHub discussion category "@ + category.name@;
    lemma_edge(d, repository_key, group, "HAS_DISCUSSION_CATEGORY"@, Seq::empty(), second);
    let e = d.with_edge(repository_key, group, "HAS_DISCUSSION_CATEGORY"@, Seq::empty(), second);
    let third = "Discussion #"@ + number + " is in category "@ + category.name@;
    lemma_edge(e, key, group, "IN_CATEGORY"@, Seq::empty(), third);
    let f = e.with_edge(key, group, "IN_CATEGORY"@, Seq::empty(), third);
    assert(f == g.with_discussion_alone(repository_key, discussion));
    lemma_discussed(f, discussion, discussion.comments.nodes@.len());
    let now = g.with_discussion(repository_key, discussion);
    lemma_both(e, f, now);
    lemma_both(d, e, now);
    lemma_both(c, d, now);
    lemma_both(b, c, now);
    lemma_both(a, b, now);
    lemma_both(g, a, now);
    assert(b.links(repository_key, key, "HAS_DISCUSSION"@));
    assert(tells_author(c, discussion.author, key));
    assert(e.links(repository_key, group, "HAS_DISCUSSION_CATEGORY"@));
    assert(f.links(key, group, "IN_CATEGORY"@));
}

/// Adding a release says that the repository published it, who wrote it, and
/// to which commit it points.
pub proof fn law_releases_are_told(g: GraphView, repository_key: Seq<char>, release: Release)
    requires
        keyed("repository:"@, repository_key),
    ensures
        steps(g, g.with_release(repository_key, release)),
        ({
            let now = g.with_release(repository_key, release);
            let key = "release:"@ + release.id@;
            &&& now.links(repository_key, key, "PUBLISHED_RELEASE"@)
            &&& tells_author(now, release.author, key)
            &&& release.tag_commit matches Some(commit) ==> now.links(
                key,
                "commit:"@ + commit.oid@,
                "POINTS_TO"@,
            )
        }),
{
    let key = "release:"@ + release.id@;
    let name = github_items::release_name(release);
    lemma_keyed("release:"@, release.id@);
    let view = github_items::release_view(release);
    lemma_node(g, key, view, 3);
    let a = g.with_node(key, view, 3);
    let first = "Repository published GitHub release "@ + name;
    lemma_edge(a, repository_key, key, "PUBLISHED_RELEASE"@, Seq::empty(), first);
    let b = a.with_edge(repository_key, key, "PUBLISHED_RELEASE"@, Seq::empty(), first);
    let what = "release "@ + name;
    lemma_author(b, release.author, key, what);
    let c = b.with_author(release.author, key, what);
    let now = g.with_release(repository_key, release);
    lemma_both(g, a, b);
    lemma_both(g, b, c);
    if let Some(commit) = release.tag_commit {
        let own = "commit:"@ + commit.oid@;
        lemma_keyed("commit:"@, commit.oid@);
        let stub = github_items::tag_commit_view(commit);
        lemma_node(c, own, stub, 1);
        let d = c.with_node(own, stub, 1);
        let line = "Release "@ + name + " points to Git commit "@ + commit.oid@;
        lemma_edge(d, key, own, "POINTS_TO"@, Seq::empty(), line);
        lemma_both(c, d, now);
        lemma_both(g, c, now);
        assert(c.links(repository_key, key, "PUBLISHED_RELEASE"@));
        assert(tells_author(c, release.author, key));
    }
}

/// Adding an author says that the user wrote the item, not the other way
/// round, and adding an item's parts says what each is to it.
pub proof fn law_parts_are_told(
    g: GraphView,
    actor: Option<Actor>,
    item: Seq<char>,
    summary: Seq<char>,
)
    ensures
        steps(g, g.with_author(actor, item, summary)),
        actor matches Some(a) ==> g.with_author(actor, item, summary).links(
            "user:"@ + crate::text::spec_lowercase(a.login@),
            item,
            "AUTHORED"@,
        ),
        actor is None ==> g.with_author(actor, item, summary) == g,
{
    lemma_author(g, actor, item, summary);
}

/// In a graph whose parts fit, every authorship starts at a user.
pub proof fn law_authors_are_users(g: GraphView, e: int)
    requires
        schema(g),
        g.closed(),
        0 <= e < g.edges.len(),
        g.edges[e].label == "AUTHORED"@,
    ensures
        exists|i: int|
            0 <= i < g.keys.len() && #[trigger] g.keys[i] == g.edges[e].source && g.nodes[i].label
                == "User"@,
{
    reveal_strlit("AUTHORED");
    reveal_strlit("ASSIGNED_TO");
    reveal_strlit("TAGGED");
    reveal_strlit("HAS_TOPIC");
    reveal_strlit("HAS_MILESTONE");
    reveal_strlit("IN_MILESTONE");
    reveal_strlit("HAS_ISSUE");
    reveal_strlit("HAS_PULL_REQUEST");
    reveal_strlit("COMMENTS_ON");
    reveal_strlit("ANSWERS");
    reveal_strlit("REPLIES_TO");
    reveal_strlit("REVIEWS");
    reveal_strlit("HAS_COMMIT");
    reveal_strlit("CONTAINS_FILE");
    reveal_strlit("CHANGES");
    reveal_strlit("CLOSES");
    reveal_strlit("HAS_DISCUSSION");
    reveal_strlit("HAS_DISCUSSION_CATEGORY");
    reveal_strlit("IN_CATEGORY");
    reveal_strlit("PUBLISHED_RELEASE");
    reveal_strlit("POINTS_TO");
    let edge = g.edges[e];
    assert(edge_fits(edge.source, edge.target, edge.label));
    let label = edge.label;
    assert(label.len() == 8 && label[1] == 'U');
    assert("HAS_TOPIC"@[1] == 'A' && "TAGGED"@.len() == 6 && "REVIEWS"@.len() == 7);
    assert(keyed("user:"@, edge.source));
    let i = choose|i: int| 0 <= i < g.keys.len() && g.keys[i] == edge.source;
    assert(node_fits(g.keys[i], g.nodes[i].label));
    lemma_user_keys(g.keys[i], g.nodes[i].label);
}

proof fn lemma_user_keys(key: Seq<char>, label: Seq<char>)
    requires
        keyed("user:"@, key),
        node_fits(key, label),
    ensures
        label == "User"@,
{
    reveal_strlit("user:");
    reveal_strlit("repository:");
    reveal_strlit("topic:");
    reveal_strlit("label:");
    reveal_strlit("milestone:");
    reveal_strlit("issue:");
    reveal_strlit("pull-request:");
    reveal_strlit("comment:");
    reveal_strlit("review:");
    reveal_strlit("commit:");
    reveal_strlit("file:");
    reveal_strlit("discussion:");
    reveal_strlit("discussion-category:");
    reveal_strlit("release:");
    assert(key[0] == 'u') by {
        assert("user:"@[0] == key.subrange(0, 5)[0]);
    }
    assert forall|kind: Seq<char>| kind.len() > 0 && #[trigger] keyed(kind, key) implies kind[0]
        == 'u' by {
        assert(key.subrange(0, kind.len() as int)[0] == key[0]);
    }
}

/// The relationships of one label that leave or reach a graph's items stay as
/// they were when a node is recorded: recording touches no relationship.
pub proof fn law_recording_touches_no_relationship(
    g: GraphView,
    key: Seq<char>,
    node: GraphNodeView,
    rank: u8,
)
    ensures
        g.with_node(key, node, rank).edges == g.edges,
{
}

/// A new relationship is recorded with its ends, its label and its properties,
/// behind those that were there, and recording it touches no node.
pub proof fn law_relationships_are_recorded(
    g: GraphView,
    source: Seq<char>,
    target: Seq<char>,
    label: Seq<char>,
    properties: Seq<(Seq<char>, ValueView)>,
    line: Seq<char>,
)
    requires
        forall|e: int|
            0 <= e < g.edges.len() ==> (#[trigger] g.edges[e]).source != source || g.edges[e].target
                != target || g.edges[e].label != label,
    ensures
        ({
            let now = g.with_edge(source, target, label, properties, line);
            &&& now.keys == g.keys
            &&& now.nodes == g.nodes
            &&& now.edges.len() == g.edges.len() + 1
            &&& forall|e: int| 0 <= e < g.edges.len() ==> #[trigger] now.edges[e] == g.edges[e]
            &&& now.edges.last().source == source
            &&& now.edges.last().target == target
            &&& now.edges.last().label == label
            &&& now.edges.last().properties == properties
        }),
{
    if g.links(source, target, label) {
        let e = choose|e: int|
            0 <= e < g.edges.len() && engineering::same_link(
                #[trigger] g.edges[e],
                source,
                target,
                label,
            );
        assert(g.edges[e].source == source);
    }
}

/// A page of issues tells of every issue on it.
pub proof fn law_issue_pages_are_told(
    g: GraphView,
    repository_key: Seq<char>,
    issues: Seq<Issue>,
    upto: nat,
)
    requires
        keyed("repository:"@, repository_key),
        upto <= issues.len(),
    ensures
        steps(g, g.with_issues(repository_key, issues, upto)),
        forall|i: int|
            0 <= i < upto ==> tells_issue(
                g.with_issues(repository_key, issues, upto),
                repository_key,
                #[trigger] issues[i],
            ),
    decreases upto,
{
    if upto > 0 {
        let less = (upto - 1) as nat;
        law_issue_pages_are_told(g, repository_key, issues, less);
        let before = g.with_issues(repository_key, issues, less);
        law_issues_are_told(before, repository_key, issues[upto - 1], true);
        let now = g.with_issues(repository_key, issues, upto);
        lemma_both(g, before, now);
        assert forall|i: int| 0 <= i < upto implies tells_issue(
            now,
            repository_key,
            #[trigger] issues[i],
        ) by {
            if i < less {
                lemma_issue_kept(before, now, repository_key, issues[i]);
            }
        }
    }
}

/// A page of pull requests tells of every pull request on it.
pub proof fn law_pull_request_pages_are_told(
    g: GraphView,
    repository_key: Seq<char>,
    pull_requests: Seq<PullRequest>,
    complete: bool,
    upto: nat,
)
    requires
        keyed("repository:"@, repository_key),
        upto <= pull_requests.len(),
    ensures
        steps(g, g.with_pull_requests(repository_key, pull_requests, complete, upto)),
        forall|i: int|
            0 <= i < upto ==> tells_pull_request(
                g.with_pull_requests(repository_key, pull_requests, complete, upto),
                repository_key,
                #[trigger] pull_requests[i],
            ),
    decreases upto,
{
    if upto > 0 {
        let less = (upto - 1) as nat;
        law_pull_request_pages_are_told(g, repository_key, pull_requests, complete, less);
        let before = g.with_pull_requests(repository_key, pull_requests, complete, less);
        law_pull_requests_are_told(before, repository_key, pull_requests[upto - 1], complete);
        let now = g.with_pull_requests(repository_key, pull_requests, complete, upto);
        lemma_both(g, before, now);
        assert forall|i: int| 0 <= i < upto implies tells_pull_request(
            now,
            repository_key,
            #[trigger] pull_requests[i],
        ) by {
            if i < less {
                lemma_pull_request_kept(before, now, repository_key, pull_requests[i]);
            }
        }
    }
}

/// A page of discussions tells of every discussion on it that the repository
/// has it.
pub proof fn law_discussion_pages_are_told(
    g: GraphView,
    repository_key: Seq<char>,
    discussions: Seq<Discussion>,
    upto: nat,
)
    requires
        keyed("repository:"@, repository_key),
        upto <= discussions.len(),
    ensures
        steps(g, g.with_discussions(repository_key, discussions, upto)),
        forall|i: int|
            0 <= i < upto ==> g.with_discussions(repository_key, discussions, upto).links(
                repository_key,
                "discussion:"@ + (#[trigger] discussions[i]).id@,
                "HAS_DISCUSSION"@,
            ),
    decreases upto,
{
    if upto > 0 {
        let less = (upto - 1) as nat;
        law_discussion_pages_are_told(g, repository_key, discussions, less);
        let before = g.with_discussions(repository_key, discussions, less);
        law_discussions_are_told(before, repository_key, discussions[upto - 1]);
        let now = g.with_discussions(repository_key, discussions, upto);
        lemma_both(g, before, now);
        assert forall|i: int| 0 <= i < upto implies now.links(
            repository_key,
            "discussion:"@ + (#[trigger] discussions[i]).id@,
            "HAS_DISCUSSION"@,
        ) by {
            if i < less {
                assert(before.links(
                    repository_key,
                    "discussion:"@ + discussions[i].id@,
                    "HAS_DISCUSSION"@,
                ));
            }
        }
    }
}

/// A page of releases tells of every release on it that the repository
/// published it.
pub proof fn law_release_pages_are_told(
    g: GraphView,
    repository_key: Seq<char>,
    releases: Seq<Release>,
    upto: nat,
)
    requires
        keyed("repository:"@, repository_key),
        upto <= releases.len(),
    ensures
        steps(g, g.with_releases(repository_key, releases, upto)),
        forall|i: int|
            0 <= i < upto ==> g.with_releases(repository_key, releases, upto).links(
                repository_key,
                "release:"@ + (#[trigger] releases[i]).id@,
                "PUBLISHED_RELEASE"@,
            ),
    decreases upto,
{
    if upto > 0 {
        let less = (upto - 1) as nat;
        law_release_pages_are_told(g, repository_key, releases, less);
        let before = g.with_releases(repository_key, releases, less);
        law_releases_are_told(before, repository_key, releases[upto - 1]);
        let now = g.with_releases(repository_key, releases, upto);
        lemma_both(g, before, now);
        assert forall|i: int| 0 <= i < upto implies now.links(
            repository_key,
            "release:"@ + (#[trigger] releases[i]).id@,
            "PUBLISHED_RELEASE"@,
        ) by {
            if i < less {
                assert(before.links(
                    repository_key,
                    "release:"@ + releases[i].id@,
                    "PUBLISHED_RELEASE"@,
                ));
            }
        }
    }
}

} // verus!
