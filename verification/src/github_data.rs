//! What the GitHub API answers, as far as an import reads it.

use vstd::prelude::*;

verus! {

/// Where a page of a connection ends.
#[derive(Clone, Debug)]
pub struct PageInfo {
    pub has_next_page: bool,
    pub end_cursor: Option<String>,
}

/// One page of a list, and the length of the whole list.
#[derive(Debug)]
pub struct Connection<T> {
    pub total_count: usize,
    pub nodes: Vec<T>,
    pub page_info: PageInfo,
}

#[derive(Debug)]
pub struct Actor {
    pub login: String,
    pub avatar_url: String,
    pub url: String,
}

#[derive(Debug)]
pub struct Label {
    pub id: String,
    pub name: String,
    pub color: String,
    pub description: Option<String>,
    pub url: String,
}

#[derive(Debug)]
pub struct Milestone {
    pub id: String,
    pub number: i64,
    pub title: String,
    pub description: Option<String>,
    pub state: String,
    pub due_on: Option<String>,
    pub created_at: String,
    pub updated_at: String,
    pub url: String,
}

#[derive(Debug)]
pub struct Comment {
    pub id: String,
    pub body_text: String,
    pub url: String,
    pub created_at: String,
    pub updated_at: String,
    pub author: Option<Actor>,
    pub replies: Vec<Comment>,
}

#[derive(Debug)]
pub struct Issue {
    pub id: String,
    pub number: i64,
    pub title: String,
    pub body_text: String,
    pub url: String,
    pub state: String,
    pub created_at: String,
    pub updated_at: String,
    pub closed_at: Option<String>,
    pub author: Option<Actor>,
    pub assignees: Connection<Actor>,
    pub labels: Connection<Label>,
    pub milestone: Option<Milestone>,
    pub comments: Connection<Comment>,
    pub closed_by_pull_requests: Vec<PullRequest>,
}

#[derive(Debug)]
pub struct PullRequest {
    pub id: String,
    pub number: i64,
    pub title: String,
    pub body_text: String,
    pub url: String,
    pub state: String,
    pub is_draft: bool,
    pub merged: bool,
    pub created_at: String,
    pub updated_at: String,
    pub closed_at: Option<String>,
    pub merged_at: Option<String>,
    pub additions: i64,
    pub deletions: i64,
    pub changed_files: i64,
    pub base_ref_name: String,
    pub head_ref_name: String,
    pub author: Option<Actor>,
    pub assignees: Connection<Actor>,
    pub labels: Connection<Label>,
    pub milestone: Option<Milestone>,
    pub comments: Connection<Comment>,
    pub reviews: Connection<Review>,
    pub commits: Connection<PullRequestCommit>,
    pub files: Connection<ChangedFile>,
    pub closing_issues: Vec<Issue>,
}

#[derive(Debug)]
pub struct PullRequestCommit {
    pub commit: Commit,
}

#[derive(Debug)]
pub struct Review {
    pub id: String,
    pub body_text: String,
    pub url: String,
    pub state: String,
    pub submitted_at: Option<String>,
    pub created_at: String,
    pub updated_at: String,
    pub author: Option<Actor>,
}

#[derive(Debug)]
pub struct CommitAuthor {
    pub name: Option<String>,
    pub user: Option<Actor>,
}

#[derive(Debug)]
pub struct Commit {
    pub id: String,
    pub oid: String,
    pub message_headline: String,
    pub message_body: String,
    pub url: String,
    pub authored_date: String,
    pub committed_date: String,
    pub author: Option<CommitAuthor>,
}

#[derive(Debug)]
pub struct ChangedFile {
    pub path: String,
    pub additions: i64,
    pub deletions: i64,
    pub change_type: String,
}

#[derive(Debug)]
pub struct DiscussionCategory {
    pub id: String,
    pub name: String,
    pub description: Option<String>,
    pub emoji: String,
}

#[derive(Debug)]
pub struct Answer {
    pub id: String,
}

#[derive(Debug)]
pub struct Discussion {
    pub id: String,
    pub number: i64,
    pub title: String,
    pub body_text: String,
    pub url: String,
    pub created_at: String,
    pub updated_at: String,
    pub closed: bool,
    pub locked: bool,
    pub author: Option<Actor>,
    pub category: DiscussionCategory,
    pub answer: Option<Answer>,
    pub comments: Connection<Comment>,
}

#[derive(Debug)]
pub struct TagCommit {
    pub oid: String,
    pub url: String,
}

#[derive(Debug)]
pub struct Release {
    pub id: String,
    pub name: Option<String>,
    pub tag_name: String,
    pub description: Option<String>,
    pub url: String,
    pub created_at: String,
    pub published_at: Option<String>,
    pub updated_at: String,
    pub is_draft: bool,
    pub is_prerelease: bool,
    pub author: Option<Actor>,
    pub tag_commit: Option<TagCommit>,
}

#[derive(Debug)]
pub struct Repository {
    pub id: String,
    pub name: String,
    pub name_with_owner: String,
    pub description: Option<String>,
    pub url: String,
    pub created_at: String,
    pub updated_at: String,
    pub stargazer_count: i64,
    pub fork_count: i64,
    pub is_archived: bool,
    pub is_fork: bool,
    pub primary_language: Option<String>,
    pub repository_topics: Vec<String>,
    pub issue_total: usize,
    pub pull_request_total: usize,
    pub discussion_total: usize,
    pub release_total: usize,
}

} // verus!
