//! What the nodes of an import say of the records they stand for.

use vstd::prelude::*;
use vstd::string::*;

use crate::engineering;
use crate::engineering::{GraphNodeView, GraphView};
use crate::fields;
use crate::github_data::{
    Actor, Comment, Commit, Discussion, Issue, Label, Milestone, PullRequest, Release, Repository,
    Review,
};
use crate::github_items;
use crate::github_model;
use crate::graph::ValueView;
use crate::text;
use crate::text_laws;

verus! {

/// Whether properties hold a text under the key.
pub open spec fn says(
    properties: Seq<(Seq<char>, ValueView)>,
    key: Seq<char>,
    value: Seq<char>,
) -> bool {
    properties.contains((key, ValueView::Text(value)))
}

/// Whether properties hold a number under the key.
pub open spec fn counts(properties: Seq<(Seq<char>, ValueView)>, key: Seq<char>, value: i64) -> bool {
    properties.contains((key, ValueView::Int(value)))
}

/// Whether properties hold a truth value under the key.
pub open spec fn flags(properties: Seq<(Seq<char>, ValueView)>, key: Seq<char>, value: bool) -> bool {
    properties.contains((key, ValueView::Bool(value)))
}

/// Whether the later properties start with the earlier ones.
spec fn extends(
    before: Seq<(Seq<char>, ValueView)>,
    after: Seq<(Seq<char>, ValueView)>,
) -> bool {
    &&& before.len() <= after.len()
    &&& forall|i: int| 0 <= i < before.len() ==> #[trigger] after[i] == before[i]
}

proof fn lemma_extended(
    before: Seq<(Seq<char>, ValueView)>,
    after: Seq<(Seq<char>, ValueView)>,
    field: (Seq<char>, ValueView),
)
    requires
        extends(before, after),
        before.contains(field),
    ensures
        after.contains(field),
{
    let i = choose|i: int| 0 <= i < before.len() && before[i] == field;
    assert(after[i] == field);
}

/// A time that is given is told as it was given and, where it can be read, in
/// milliseconds; one that is not given is not told. Nothing else changes.
pub proof fn law_times_are_told(
    properties: Seq<(Seq<char>, ValueView)>,
    text_key: Seq<char>,
    millis_key: Seq<char>,
    value: Option<Seq<char>>,
)
    ensures
        ({
            let after = fields::with_time(properties, text_key, millis_key, value);
            &&& properties.len() <= after.len()
            &&& forall|i: int| 0 <= i < properties.len() ==> #[trigger] after[i] == properties[i]
            &&& value is None ==> after == properties
            &&& value matches Some(v) ==> says(after, text_key, v) && (
            fields::spec_rfc3339_millis(v) matches Some(ms) ==> counts(after, millis_key, ms))
        }),
{
    if let Some(v) = value {
        let after = fields::with_time(properties, text_key, millis_key, value);
        assert(after[properties.len() as int] == (text_key, ValueView::Text(v)));
        if let Some(ms) = fields::spec_rfc3339_millis(v) {
            assert(after[properties.len() as int + 1] == (millis_key, ValueView::Int(ms)));
        }
    }
}

/// A text that is given and not empty is told; nothing else changes.
pub proof fn law_given_texts_are_told(
    properties: Seq<(Seq<char>, ValueView)>,
    key: Seq<char>,
    value: Option<Seq<char>>,
)
    ensures
        ({
            let after = fields::with_optional(properties, key, value);
            &&& properties.len() <= after.len() <= properties.len() + 1
            &&& forall|i: int| 0 <= i < properties.len() ==> #[trigger] after[i] == properties[i]
            &&& (value matches Some(v) && v.len() > 0) <==> after.len() > properties.len()
            &&& value matches Some(v) ==> v.len() > 0 ==> says(after, key, v)
        }),
{
    let after = fields::with_optional(properties, key, value);
    if let Some(v) = value {
        if v.len() > 0 {
            assert(after[properties.len() as int] == (key, ValueView::Text(v)));
        }
    }
}

proof fn lemma_two_times(
    base: Seq<(Seq<char>, ValueView)>,
    first: (Seq<char>, Seq<char>, Option<Seq<char>>),
    second: (Seq<char>, Seq<char>, Option<Seq<char>>),
)
    ensures
        ({
            let a = fields::with_time(base, first.0, first.1, first.2);
            let b = fields::with_time(a, second.0, second.1, second.2);
            &&& extends(base, b)
            &&& first.2 matches Some(v) ==> says(b, first.0, v)
            &&& second.2 matches Some(v) ==> says(b, second.0, v)
        }),
{
    let a = fields::with_time(base, first.0, first.1, first.2);
    let b = fields::with_time(a, second.0, second.1, second.2);
    law_times_are_told(base, first.0, first.1, first.2);
    law_times_are_told(a, second.0, second.1, second.2);
    assert(extends(a, b));
    if let Some(v) = first.2 {
        lemma_extended(a, b, (first.0, ValueView::Text(v)));
    }
}

/// What every work item says of itself: its id, number, title, address and
/// state, its body as far as bodies are stored, and when it was created,
/// updated and closed.
pub open spec fn says_content(
    p: Seq<(Seq<char>, ValueView)>,
    content: github_items::ContentView,
) -> bool {
    &&& says(p, "external_id"@, content.id)
    &&& counts(p, "number"@, content.number)
    &&& says(p, "title"@, content.title)
    &&& says(p, "body"@, fields::stored(content.body))
    &&& says(p, "url"@, content.url)
    &&& says(p, "state"@, content.state)
    &&& says(p, "created_at"@, content.created_at)
    &&& says(p, "updated_at"@, content.updated_at)
    &&& content.closed_at matches Some(v) ==> says(p, "closed_at"@, v)
}

proof fn lemma_content(content: github_items::ContentView, after: Seq<(Seq<char>, ValueView)>)
    requires
        extends(github_items::content_view(content), after),
    ensures
        says_content(after, content),
{
    let base = github_items::content_base(content);
    let created = fields::with_time(
        base,
        "created_at"@,
        "created_at_ms"@,
        Some(content.created_at),
    );
    let updated = fields::with_time(
        created,
        "updated_at"@,
        "updated_at_ms"@,
        Some(content.updated_at),
    );
    let closed = fields::with_time(updated, "closed_at"@, "closed_at_ms"@, content.closed_at);
    lemma_two_times(
        base,
        ("created_at"@, "created_at_ms"@, Some(content.created_at)),
        ("updated_at"@, "updated_at_ms"@, Some(content.updated_at)),
    );
    law_times_are_told(updated, "closed_at"@, "closed_at_ms"@, content.closed_at);
    assert(extends(updated, closed));
    assert(closed == github_items::content_view(content));
    assert(base[0] == ("external_id"@, ValueView::Text(content.id)));
    assert(base[1] == ("number"@, ValueView::Int(content.number)));
    assert(base[2] == ("title"@, ValueView::Text(content.title)));
    assert(base[3] == ("body"@, ValueView::Text(fields::stored(content.body))));
    assert(base[4] == ("url"@, ValueView::Text(content.url)));
    assert(base[5] == ("state"@, ValueView::Text(content.state)));
    assert forall|i: int| 0 <= i < base.len() implies #[trigger] after[i] == base[i] by {
        assert(updated[i] == base[i]);
        assert(closed[i] == updated[i]);
    }
    assert(after[0] == base[0] && after[1] == base[1] && after[2] == base[2] && after[3] == base[3]
        && after[4] == base[4] && after[5] == base[5]);
    lemma_extended(updated, closed, ("created_at"@, ValueView::Text(content.created_at)));
    lemma_extended(updated, closed, ("updated_at"@, ValueView::Text(content.updated_at)));
    lemma_extended(closed, after, ("created_at"@, ValueView::Text(content.created_at)));
    lemma_extended(closed, after, ("updated_at"@, ValueView::Text(content.updated_at)));
    if let Some(v) = content.closed_at {
        lemma_extended(closed, after, ("closed_at"@, ValueView::Text(v)));
    }
}

/// The node of an issue is an issue and says what the record says.
pub proof fn law_issue_nodes_say_what_the_record_says(issue: Issue, complete: bool)
    ensures
        ({
            let node = github_items::issue_view(issue, complete);
            let p = node.properties;
            &&& node.label == "Issue"@
            &&& says(p, "external_id"@, issue.id@)
            &&& counts(p, "number"@, issue.number)
            &&& says(p, "title"@, issue.title@)
            &&& says(p, "body"@, fields::stored(issue.body_text@))
            &&& says(p, "url"@, issue.url@)
            &&& says(p, "state"@, issue.state@)
            &&& says(p, "created_at"@, issue.created_at@)
            &&& says(p, "updated_at"@, issue.updated_at@)
            &&& issue.closed_at matches Some(v) ==> says(p, "closed_at"@, v@)
            &&& counts(p, "comment_total"@, issue.comments.total_count as i64)
            &&& flags(p, "detail_complete"@, complete)
        }),
{
    let content = github_items::issue_content(issue);
    let base = github_items::content_view(content);
    let p = github_items::issue_view(issue, complete).properties;
    assert(extends(base, p));
    lemma_content(content, p);
    assert(p[base.len() as int] == ("comment_total"@, ValueView::Int(
        issue.comments.total_count as i64,
    )));
    assert(p[base.len() as int + 1] == ("detail_complete"@, ValueView::Bool(complete)));
}

/// The node of a pull request is a pull request and says what the record says.
pub proof fn law_pull_request_nodes_say_what_the_record_says(pr: PullRequest, complete: bool)
    ensures
        ({
            let node = github_items::pull_request_view(pr, complete);
            let p = node.properties;
            &&& node.label == "PullRequest"@
            &&& says(p, "external_id"@, pr.id@)
            &&& counts(p, "number"@, pr.number)
            &&& says(p, "title"@, pr.title@)
            &&& says(p, "body"@, fields::stored(pr.body_text@))
            &&& says(p, "url"@, pr.url@)
            &&& says(p, "state"@, pr.state@)
            &&& says(p, "created_at"@, pr.created_at@)
            &&& says(p, "updated_at"@, pr.updated_at@)
            &&& pr.closed_at matches Some(v) ==> says(p, "closed_at"@, v@)
            &&& pr.merged_at matches Some(v) ==> says(p, "merged_at"@, v@)
            &&& flags(p, "detail_complete"@, complete)
            &&& flags(p, "draft"@, pr.is_draft)
            &&& flags(p, "merged"@, pr.merged)
            &&& counts(p, "additions"@, pr.additions)
            &&& counts(p, "deletions"@, pr.deletions)
            &&& counts(p, "changed_files"@, pr.changed_files)
            &&& says(p, "base_ref"@, pr.base_ref_name@)
            &&& says(p, "head_ref"@, pr.head_ref_name@)
            &&& counts(p, "comment_total"@, pr.comments.total_count as i64)
            &&& counts(p, "review_total"@, pr.reviews.total_count as i64)
            &&& counts(p, "commit_total"@, pr.commits.total_count as i64)
            &&& counts(p, "file_total"@, pr.files.total_count as i64)
        }),
{
    let content = github_items::pull_request_content(pr);
    let base = github_items::content_view(content);
    let more = github_items::pull_request_base(pr, complete);
    let whole = base + more;
    let merged = text::opt_view(pr.merged_at);
    let p = github_items::pull_request_view(pr, complete).properties;
    law_times_are_told(whole, "merged_at"@, "merged_at_ms"@, merged);
    assert(extends(whole, p));
    assert forall|i: int| 0 <= i < base.len() implies #[trigger] p[i] == base[i] by {
        assert(whole[i] == base[i]);
    }
    assert(extends(base, p));
    lemma_content(content, p);
    let n = base.len() as int;
    assert forall|k: int| 0 <= k < more.len() implies p[n + k] == #[trigger] more[k] by {
        assert(whole[n + k] == more[k]);
    }
    assert(more[0] == ("detail_complete"@, ValueView::Bool(complete)));
    assert(more[1] == ("draft"@, ValueView::Bool(pr.is_draft)));
    assert(more[2] == ("merged"@, ValueView::Bool(pr.merged)));
    assert(more[3] == ("additions"@, ValueView::Int(pr.additions)));
    assert(more[4] == ("deletions"@, ValueView::Int(pr.deletions)));
    assert(more[5] == ("changed_files"@, ValueView::Int(pr.changed_files)));
    assert(more[6] == ("base_ref"@, ValueView::Text(pr.base_ref_name@)));
    assert(more[7] == ("head_ref"@, ValueView::Text(pr.head_ref_name@)));
    assert(more[8] == ("comment_total"@, ValueView::Int(pr.comments.total_count as i64)));
    assert(more[9] == ("review_total"@, ValueView::Int(pr.reviews.total_count as i64)));
    assert(more[10] == ("commit_total"@, ValueView::Int(pr.commits.total_count as i64)));
    assert(more[11] == ("file_total"@, ValueView::Int(pr.files.total_count as i64)));
}

/// The node of a discussion says what the record says.
pub proof fn law_discussion_nodes_say_what_the_record_says(discussion: Discussion)
    ensures
        ({
            let node = github_items::discussion_view(discussion);
            let p = node.properties;
            &&& node.label == "Discussion"@
            &&& says(p, "external_id"@, discussion.id@)
            &&& counts(p, "number"@, discussion.number)
            &&& says(p, "title"@, discussion.title@)
            &&& says(p, "body"@, fields::stored(discussion.body_text@))
            &&& says(p, "url"@, discussion.url@)
            &&& flags(p, "closed"@, discussion.closed)
            &&& flags(p, "locked"@, discussion.locked)
            &&& counts(p, "comment_total"@, discussion.comments.total_count as i64)
            &&& says(p, "created_at"@, discussion.created_at@)
            &&& says(p, "updated_at"@, discussion.updated_at@)
            &&& github_items::category_view(discussion.category).label == "DiscussionCategory"@
            &&& says(
                github_items::category_view(discussion.category).properties,
                "name"@,
                discussion.category.name@,
            )
        }),
{
    let base = github_items::discussion_base(discussion);
    let p = github_items::discussion_view(discussion).properties;
    lemma_two_times(
        base,
        ("created_at"@, "created_at_ms"@, Some(discussion.created_at@)),
        ("updated_at"@, "updated_at_ms"@, Some(discussion.updated_at@)),
    );
    assert(base.len() == 8);
    assert(p[0] == ("external_id"@, ValueView::Text(discussion.id@)));
    assert(p[1] == ("number"@, ValueView::Int(discussion.number)));
    assert(p[2] == ("title"@, ValueView::Text(discussion.title@)));
    assert(p[3] == ("body"@, ValueView::Text(fields::stored(discussion.body_text@))));
    assert(p[4] == ("url"@, ValueView::Text(discussion.url@)));
    assert(p[5] == ("closed"@, ValueView::Bool(discussion.closed)));
    assert(p[6] == ("locked"@, ValueView::Bool(discussion.locked)));
    assert(p[7] == ("comment_total"@, ValueView::Int(discussion.comments.total_count as i64)));
    let q = github_items::category_view(discussion.category).properties;
    assert(q[1] == ("name"@, ValueView::Text(discussion.category.name@)));
}

/// A release goes by its name, or by its tag where it has none.
pub proof fn law_release_nodes_say_what_the_record_says(release: Release)
    ensures
        release.name matches Some(name) && name@.len() > 0 ==> github_items::release_name(release)
            == release.name->0@,
        !(release.name matches Some(name) && name@.len() > 0) ==> github_items::release_name(release)
            == release.tag_name@,
        ({
            let node = github_items::release_view(release);
            let p = node.properties;
            &&& node.label == "Release"@
            &&& says(p, "external_id"@, release.id@)
            &&& says(p, "name"@, github_items::release_name(release))
            &&& says(p, "tag"@, release.tag_name@)
            &&& release.description matches Some(d) ==> says(
                p,
                "description"@,
                fields::stored(d@),
            )
            &&& says(p, "url"@, release.url@)
            &&& flags(p, "draft"@, release.is_draft)
            &&& flags(p, "prerelease"@, release.is_prerelease)
            &&& says(p, "created_at"@, release.created_at@)
            &&& release.published_at matches Some(v) ==> says(p, "published_at"@, v@)
            &&& says(p, "updated_at"@, release.updated_at@)
        }),
{
    let base = github_items::release_base(release);
    let created = fields::with_time(
        base,
        "created_at"@,
        "created_at_ms"@,
        Some(release.created_at@),
    );
    let given = text::opt_view(release.published_at);
    let published = fields::with_time(created, "published_at"@, "published_at_ms"@, given);
    let p = github_items::release_view(release).properties;
    lemma_two_times(
        base,
        ("created_at"@, "created_at_ms"@, Some(release.created_at@)),
        ("published_at"@, "published_at_ms"@, given),
    );
    law_times_are_told(published, "updated_at"@, "updated_at_ms"@, Some(release.updated_at@));
    assert(extends(published, p));
    assert(base.len() == 7);
    assert forall|i: int| 0 <= i < 7 implies #[trigger] p[i] == base[i] by {
        assert(published[i] == base[i]);
    }
    assert(p[0] == ("external_id"@, ValueView::Text(release.id@)));
    assert(p[1] == ("name"@, ValueView::Text(github_items::release_name(release))));
    assert(p[2] == ("tag"@, ValueView::Text(release.tag_name@)));
    assert(p[3].0 == "description"@);
    assert(p[4] == ("url"@, ValueView::Text(release.url@)));
    assert(p[5] == ("draft"@, ValueView::Bool(release.is_draft)));
    assert(p[6] == ("prerelease"@, ValueView::Bool(release.is_prerelease)));
    lemma_extended(published, p, ("created_at"@, ValueView::Text(release.created_at@)));
    if let Some(v) = given {
        lemma_extended(published, p, ("published_at"@, ValueView::Text(v)));
    }
}

/// The nodes of comments, reviews and commits say what the records say.
pub proof fn law_detail_nodes_say_what_the_records_say(
    comment: Comment,
    kind: Seq<char>,
    review: Review,
    commit: Commit,
)
    ensures
        ({
            let node = github_model::comment_view(comment, kind);
            let p = node.properties;
            &&& node.label == "Comment"@
            &&& says(p, "external_id"@, comment.id@)
            &&& says(p, "body"@, fields::stored(comment.body_text@))
            &&& says(p, "url"@, comment.url@)
            &&& says(p, "kind"@, kind)
            &&& says(p, "created_at"@, comment.created_at@)
            &&& says(p, "updated_at"@, comment.updated_at@)
        }),
        ({
            let node = github_model::review_view(review);
            let p = node.properties;
            &&& node.label == "Review"@
            &&& says(p, "external_id"@, review.id@)
            &&& says(p, "body"@, fields::stored(review.body_text@))
            &&& says(p, "url"@, review.url@)
            &&& says(p, "state"@, review.state@)
            &&& says(p, "created_at"@, review.created_at@)
            &&& says(p, "updated_at"@, review.updated_at@)
            &&& review.submitted_at matches Some(v) ==> says(p, "submitted_at"@, v@)
        }),
        ({
            let node = github_model::commit_view(commit);
            let p = node.properties;
            &&& node.label == "Commit"@
            &&& says(p, "external_id"@, commit.id@)
            &&& says(p, "oid"@, commit.oid@)
            &&& says(p, "headline"@, commit.message_headline@)
            &&& says(p, "body"@, fields::stored(commit.message_body@))
            &&& says(p, "url"@, commit.url@)
            &&& says(p, "authored_at"@, commit.authored_date@)
            &&& says(p, "committed_at"@, commit.committed_date@)
        }),
{
    let base = github_model::comment_base(comment, kind);
    lemma_two_times(
        base,
        ("created_at"@, "created_at_ms"@, Some(comment.created_at@)),
        ("updated_at"@, "updated_at_ms"@, Some(comment.updated_at@)),
    );
    let p = github_model::comment_view(comment, kind).properties;
    assert(base.len() == 4);
    assert(p[0] == ("external_id"@, ValueView::Text(comment.id@)));
    assert(p[1] == ("body"@, ValueView::Text(fields::stored(comment.body_text@))));
    assert(p[2] == ("url"@, ValueView::Text(comment.url@)));
    assert(p[3] == ("kind"@, ValueView::Text(kind)));

    let base = github_model::review_base(review);
    lemma_two_times(
        base,
        ("created_at"@, "created_at_ms"@, Some(review.created_at@)),
        ("updated_at"@, "updated_at_ms"@, Some(review.updated_at@)),
    );
    let created = fields::with_time(
        base,
        "created_at"@,
        "created_at_ms"@,
        Some(review.created_at@),
    );
    let updated = fields::with_time(
        created,
        "updated_at"@,
        "updated_at_ms"@,
        Some(review.updated_at@),
    );
    let given = text::opt_view(review.submitted_at);
    law_times_are_told(updated, "submitted_at"@, "submitted_at_ms"@, given);
    let p = github_model::review_view(review).properties;
    assert(extends(updated, p));
    assert(base.len() == 4);
    assert forall|i: int| 0 <= i < 4 implies #[trigger] p[i] == base[i] by {
        assert(updated[i] == base[i]);
    }
    assert(p[0] == ("external_id"@, ValueView::Text(review.id@)));
    assert(p[1] == ("body"@, ValueView::Text(fields::stored(review.body_text@))));
    assert(p[2] == ("url"@, ValueView::Text(review.url@)));
    assert(p[3] == ("state"@, ValueView::Text(review.state@)));
    lemma_extended(updated, p, ("created_at"@, ValueView::Text(review.created_at@)));
    lemma_extended(updated, p, ("updated_at"@, ValueView::Text(review.updated_at@)));

    let base = github_model::commit_base(commit);
    let named = match commit.author {
        Some(author) => match author.name {
            Some(name) => base.push(github_model::text_field("author_name"@, name@)),
            None => base,
        },
        None => base,
    };
    assert(extends(base, named));
    lemma_two_times(
        named,
        ("authored_at"@, "authored_at_ms"@, Some(commit.authored_date@)),
        ("committed_at"@, "committed_at_ms"@, Some(commit.committed_date@)),
    );
    let p = github_model::commit_view(commit).properties;
    assert(base.len() == 5);
    assert forall|i: int| 0 <= i < 5 implies #[trigger] p[i] == base[i] by {
        assert(named[i] == base[i]);
    }
    assert(p[0] == ("external_id"@, ValueView::Text(commit.id@)));
    assert(p[1] == ("oid"@, ValueView::Text(commit.oid@)));
    assert(p[2] == ("headline"@, ValueView::Text(commit.message_headline@)));
    assert(p[3] == ("body"@, ValueView::Text(fields::stored(commit.message_body@))));
    assert(p[4] == ("url"@, ValueView::Text(commit.url@)));
}

/// The nodes of repositories, people, labels and milestones say what the
/// records say.
pub proof fn law_other_nodes_say_what_the_records_say(
    repository: Repository,
    actor: Actor,
    label: Label,
    milestone: Milestone,
)
    ensures
        ({
            let node = github_model::repository_view(repository);
            let p = node.properties;
            &&& node.label == "Repository"@
            &&& says(p, "external_id"@, repository.id@)
            &&& says(p, "name"@, repository.name@)
            &&& says(p, "name_with_owner"@, repository.name_with_owner@)
            &&& says(p, "url"@, repository.url@)
            &&& counts(p, "stars"@, repository.stargazer_count)
            &&& counts(p, "forks"@, repository.fork_count)
            &&& flags(p, "archived"@, repository.is_archived)
            &&& flags(p, "fork"@, repository.is_fork)
            &&& counts(p, "issue_total"@, repository.issue_total as i64)
            &&& counts(p, "pull_request_total"@, repository.pull_request_total as i64)
            &&& counts(p, "discussion_total"@, repository.discussion_total as i64)
            &&& counts(p, "release_total"@, repository.release_total as i64)
            &&& says(p, "created_at"@, repository.created_at@)
            &&& says(p, "updated_at"@, repository.updated_at@)
            &&& repository.description matches Some(d) ==> d@.len() > 0 ==> says(
                p,
                "description"@,
                d@,
            )
            &&& repository.primary_language matches Some(l) ==> l@.len() > 0 ==> says(
                p,
                "primary_language"@,
                l@,
            )
        }),
        ({
            let p = github_model::actor_base(actor);
            &&& says(p, "login"@, actor.login@)
            &&& says(p, "url"@, actor.url@)
            &&& says(p, "avatar_url"@, actor.avatar_url@)
            &&& flags(p, "bot"@, "[bot]"@.is_suffix_of(actor.login@))
        }),
        ({
            let p = github_model::label_base(label);
            &&& says(p, "external_id"@, label.id@)
            &&& says(p, "name"@, label.name@)
            &&& says(p, "color"@, label.color@)
            &&& says(p, "url"@, label.url@)
            &&& label.description matches Some(d) ==> says(p, "description"@, d@)
        }),
        ({
            let node = github_model::milestone_view(milestone);
            let p = node.properties;
            &&& node.label == "Milestone"@
            &&& says(p, "external_id"@, milestone.id@)
            &&& counts(p, "number"@, milestone.number)
            &&& says(p, "title"@, milestone.title@)
            &&& says(p, "state"@, milestone.state@)
            &&& says(p, "url"@, milestone.url@)
            &&& says(p, "created_at"@, milestone.created_at@)
            &&& says(p, "updated_at"@, milestone.updated_at@)
            &&& milestone.due_on matches Some(v) ==> says(p, "due_at"@, v@)
        }),
{
    let base = github_model::repository_base(repository);
    let about = text::opt_view(repository.description);
    let described = fields::with_optional(base, "description"@, about);
    let language = text::opt_view(repository.primary_language);
    let spoken = fields::with_optional(described, "primary_language"@, language);
    law_given_texts_are_told(base, "description"@, about);
    law_given_texts_are_told(described, "primary_language"@, language);
    lemma_two_times(
        spoken,
        ("created_at"@, "created_at_ms"@, Some(repository.created_at@)),
        ("updated_at"@, "updated_at_ms"@, Some(repository.updated_at@)),
    );
    let p = github_model::repository_view(repository).properties;
    assert(extends(described, spoken));
    assert(extends(spoken, p));
    assert(base.len() == 12);
    assert forall|i: int| 0 <= i < 12 implies #[trigger] p[i] == base[i] by {
        assert(described[i] == base[i]);
        assert(spoken[i] == described[i]);
    }
    assert(p[0] == ("external_id"@, ValueView::Text(repository.id@)));
    assert(p[1] == ("name"@, ValueView::Text(repository.name@)));
    assert(p[2] == ("name_with_owner"@, ValueView::Text(repository.name_with_owner@)));
    assert(p[3] == ("url"@, ValueView::Text(repository.url@)));
    assert(p[4] == ("stars"@, ValueView::Int(repository.stargazer_count)));
    assert(p[5] == ("forks"@, ValueView::Int(repository.fork_count)));
    assert(p[6] == ("archived"@, ValueView::Bool(repository.is_archived)));
    assert(p[7] == ("fork"@, ValueView::Bool(repository.is_fork)));
    assert(p[8] == ("issue_total"@, ValueView::Int(repository.issue_total as i64)));
    assert(p[9] == ("pull_request_total"@, ValueView::Int(repository.pull_request_total as i64)));
    assert(p[10] == ("discussion_total"@, ValueView::Int(repository.discussion_total as i64)));
    assert(p[11] == ("release_total"@, ValueView::Int(repository.release_total as i64)));
    if let Some(d) = repository.description {
        if d@.len() > 0 {
            lemma_extended(described, spoken, ("description"@, ValueView::Text(d@)));
            lemma_extended(spoken, p, ("description"@, ValueView::Text(d@)));
        }
    }
    if let Some(l) = repository.primary_language {
        if l@.len() > 0 {
            lemma_extended(spoken, p, ("primary_language"@, ValueView::Text(l@)));
        }
    }

    let p = github_model::actor_base(actor);
    assert(p[0] == ("login"@, ValueView::Text(actor.login@)));
    assert(p[1] == ("url"@, ValueView::Text(actor.url@)));
    assert(p[2] == ("avatar_url"@, ValueView::Text(actor.avatar_url@)));
    assert(p[3] == ("bot"@, ValueView::Bool("[bot]"@.is_suffix_of(actor.login@))));

    let p = github_model::label_base(label);
    assert(p[0] == ("external_id"@, ValueView::Text(label.id@)));
    assert(p[1] == ("name"@, ValueView::Text(label.name@)));
    assert(p[2] == ("color"@, ValueView::Text(label.color@)));
    assert(p[3] == ("url"@, ValueView::Text(label.url@)));
    assert(p[4].0 == "description"@);

    let base = github_model::milestone_base(milestone);
    let created = fields::with_time(
        base,
        "created_at"@,
        "created_at_ms"@,
        Some(milestone.created_at@),
    );
    let updated = fields::with_time(
        created,
        "updated_at"@,
        "updated_at_ms"@,
        Some(milestone.updated_at@),
    );
    let due = text::opt_view(milestone.due_on);
    lemma_two_times(
        base,
        ("created_at"@, "created_at_ms"@, Some(milestone.created_at@)),
        ("updated_at"@, "updated_at_ms"@, Some(milestone.updated_at@)),
    );
    law_times_are_told(updated, "due_at"@, "due_at_ms"@, due);
    let p = github_model::milestone_view(milestone).properties;
    assert(extends(updated, p));
    assert(base.len() == 6);
    assert forall|i: int| 0 <= i < 6 implies #[trigger] p[i] == base[i] by {
        assert(updated[i] == base[i]);
    }
    assert(p[0] == ("external_id"@, ValueView::Text(milestone.id@)));
    assert(p[1] == ("number"@, ValueView::Int(milestone.number)));
    assert(p[2] == ("title"@, ValueView::Text(milestone.title@)));
    assert(p[3] == ("state"@, ValueView::Text(milestone.state@)));
    assert(p[4] == ("url"@, ValueView::Text(milestone.url@)));
    lemma_extended(updated, p, ("created_at"@, ValueView::Text(milestone.created_at@)));
    lemma_extended(updated, p, ("updated_at"@, ValueView::Text(milestone.updated_at@)));
}

/// A stored body is the body without the white space around it, whole where it
/// takes no more than 32 KiB.
pub proof fn law_bodies_are_stored(body: Seq<char>)
    ensures
        text::utf8_len(text::trimmed(body)) <= 32 * 1024 ==> fields::stored(body) == text::trimmed(
            body,
        ),
        text::utf8_len(fields::stored(body)) <= 32 * 1024 + 3,
        text::utf8_len(text::trimmed(body)) <= 12 * 1024 ==> engineering::payload(body)
            == text::trimmed(body),
        text::utf8_len(engineering::payload(body)) <= 12 * 1024 + 3,
        text::utf8_len(fields::summary(body)) <= 163,
        text::utf8_len(fields::short(body)) <= 8,
        fields::short(body).is_prefix_of(body),
{
    text::law_truncated_utf8_fits(text::trimmed(body), 32 * 1024);
    text::law_truncated_utf8_fits(text::trimmed(body), 12 * 1024);
    text::law_truncated_utf8_fits(text::trimmed(text::normalized(body)), 160);
    text_laws::law_byte_limits_keep_what_fits(body, 8);
    let kept = fields::short(body);
    assert(body.subrange(0, kept.len() as int) =~= kept);
}

proof fn lemma_payloads(texts: Seq<Seq<char>>)
    ensures
        engineering::payloads(texts).len() <= texts.len(),
        forall|i: int|
            0 <= i < texts.len() && !text::is_blank(#[trigger] texts[i]) ==> engineering::payloads(
                texts,
            ).contains(engineering::payload(texts[i])),
    decreases texts.len(),
{
    if texts.len() > 0 {
        let rest = texts.drop_last();
        lemma_payloads(rest);
        let before = engineering::payloads(rest);
        let now = engineering::payloads(texts);
        assert forall|i: int| 0 <= i < texts.len() && !text::is_blank(
            #[trigger] texts[i],
        ) implies now.contains(engineering::payload(texts[i])) by {
            if i < rest.len() {
                assert(rest[i] == texts[i]);
                let k = choose|k: int|
                    0 <= k < before.len() && before[k] == engineering::payload(texts[i]);
                assert(now[k] == before[k]);
            } else {
                assert(now.last() == engineering::payload(texts[i]));
            }
        }
    }
}

/// What is embedded for a node are its texts, but for the blank ones.
pub proof fn law_filled_texts_are_embedded(
    label: Seq<char>,
    properties: Seq<(Seq<char>, ValueView)>,
    texts: Seq<Seq<char>>,
    summary: Seq<char>,
    i: int,
)
    requires
        0 <= i < texts.len(),
    ensures
        ({
            let node = engineering::node_of(label, properties, texts, summary);
            &&& node.label == label
            &&& node.properties == properties
            &&& node.summary == summary
            &&& node.embedding_texts.len() <= texts.len()
            &&& !text_laws::all_white(texts[i]) ==> node.embedding_texts.contains(
                engineering::payload(texts[i]),
            )
        }),
{
    text_laws::law_blank_is_whitespace_alone(texts[i]);
    lemma_payloads(texts);
}

/// A titled text is embedded by its title, and with its body where it has one.
pub proof fn law_titles_and_bodies_are_embedded(
    kind: Seq<char>,
    title: Seq<char>,
    body: Seq<char>,
)
    ensures
        fields::title_body(kind, title, body).contains(kind + ": "@ + title),
        !text_laws::all_white(body) ==> fields::title_body(kind, title, body).contains(
            kind + " "@ + title + ". "@ + body,
        ),
        text_laws::all_white(body) ==> fields::title_body(kind, title, body).len() == 1,
{
    text_laws::law_blank_is_whitespace_alone(body);
    let told = fields::title_body(kind, title, body);
    assert(told[0] == kind + ": "@ + title);
    if !text::is_blank(body) {
        assert(told[1] == kind + " "@ + title + ". "@ + body);
    }
}

/// A node that is recorded stands under its key, as it was recorded, unless a
/// record of at least its rank stood there before.
pub proof fn law_recorded_nodes_stand_under_their_key(
    g: GraphView,
    key: Seq<char>,
    node: GraphNodeView,
    rank: u8,
)
    requires
        g.wf(),
    ensures
        ({
            let now = g.with_node(key, node, rank);
            exists|i: int|
                0 <= i < now.keys.len() && #[trigger] now.keys[i] == key && (now.nodes[i] == node
                    || (i < g.keys.len() && g.keys[i] == key && g.ranks[i] >= rank && now.nodes[i]
                    == g.nodes[i]))
        }),
        !g.keys.contains(key) ==> ({
            let now = g.with_node(key, node, rank);
            now.keys.last() == key && now.nodes.last() == node && now.ranks.last() == rank
        }),
{
    let now = g.with_node(key, node, rank);
    if g.keys.contains(key) {
        let i = g.keys.index_of(key);
        assert(g.keys[i] == key);
        assert(now.keys[i] == key);
    } else {
        assert(now.keys[g.keys.len() as int] == key);
    }
}

} // verus!
