//! Turning GitHub records into the engineering graph.
//!
//! Every function that adds to the graph has a counterpart on the graph's
//! contents that says what it adds, in order.

use vstd::prelude::*;
use vstd::string::*;

use crate::digits;
use crate::digits::signed_text;
use crate::engineering;
use crate::engineering::{EngineeringGraph, Field, GraphNode, GraphNodeView, GraphView};
use crate::fields;
use crate::fields::{
    as_slice, datetime_properties, push_datetime, push_optional_string, short_oid, stored_text,
    string_value, text_or_empty, text_summary, title_body_embeddings,
};
use crate::github_data::{
    Actor, ChangedFile, Comment, Commit, Label, Milestone,
    PullRequestCommit, Repository, Review,
};
use crate::graph::{Value, ValueView};
use crate::text;
use crate::text::{concat2, concat3, concat4, concat5, concat6};

verus! {

pub open spec fn text_field(key: Seq<char>, value: Seq<char>) -> (Seq<char>, ValueView) {
    (key, ValueView::Text(value))
}

pub open spec fn int_field(key: Seq<char>, value: i64) -> (Seq<char>, ValueView) {
    (key, ValueView::Int(value))
}

pub open spec fn bool_field(key: Seq<char>, value: bool) -> (Seq<char>, ValueView) {
    (key, ValueView::Bool(value))
}

/// A number in decimal.
pub open spec fn num(n: i64) -> Seq<char> {
    digits::signed_decimal(n as int)
}

/// The key of a repository.
pub fn repository_key(id: &str) -> (r: String)
    ensures
        r@ == "repository:"@ + id@,
{
    concat2("repository:", id)
}

/// The key of a issue.
pub fn issue_key(id: &str) -> (r: String)
    ensures
        r@ == "issue:"@ + id@,
{
    concat2("issue:", id)
}

/// The key of a pull request.
pub fn pull_request_key(id: &str) -> (r: String)
    ensures
        r@ == "pull-request:"@ + id@,
{
    concat2("pull-request:", id)
}

/// The key of a discussion.
pub fn discussion_key(id: &str) -> (r: String)
    ensures
        r@ == "discussion:"@ + id@,
{
    concat2("discussion:", id)
}

/// The key of a release.
pub fn release_key(id: &str) -> (r: String)
    ensures
        r@ == "release:"@ + id@,
{
    concat2("release:", id)
}

/// The key of a comment.
pub fn comment_key(id: &str) -> (r: String)
    ensures
        r@ == "comment:"@ + id@,
{
    concat2("comment:", id)
}

/// The key of a commit.
pub fn commit_key(oid: &str) -> (r: String)
    ensures
        r@ == "commit:"@ + oid@,
{
    concat2("commit:", oid)
}

/// The properties that every repository has.
pub open spec fn repository_base(repository: Repository) -> Seq<(Seq<char>, ValueView)> {
    seq![
        text_field("external_id"@, repository.id@),
        text_field("name"@, repository.name@),
        text_field("name_with_owner"@, repository.name_with_owner@),
        text_field("url"@, repository.url@),
        int_field("stars"@, repository.stargazer_count),
        int_field("forks"@, repository.fork_count),
        bool_field("archived"@, repository.is_archived),
        bool_field("fork"@, repository.is_fork),
        int_field("issue_total"@, repository.issue_total as i64),
        int_field("pull_request_total"@, repository.pull_request_total as i64),
        int_field("discussion_total"@, repository.discussion_total as i64),
        int_field("release_total"@, repository.release_total as i64),
    ]
}

fn repository_fields(repository: &Repository) -> (r: Vec<Field>)
    ensures
        engineering::fields_view(r@) == repository_base(*repository),
{
    let mut out: Vec<Field> = Vec::new();
    out.push(("external_id", string_value(repository.id.as_str())));
    out.push(("name", string_value(repository.name.as_str())));
    out.push(("name_with_owner", string_value(repository.name_with_owner.as_str())));
    out.push(("url", string_value(repository.url.as_str())));
    out.push(("stars", Value::Int(repository.stargazer_count)));
    out.push(("forks", Value::Int(repository.fork_count)));
    out.push(("archived", Value::Bool(repository.is_archived)));
    out.push(("fork", Value::Bool(repository.is_fork)));
    out.push(("issue_total", Value::Int(repository.issue_total as i64)));
    out.push(("pull_request_total", Value::Int(repository.pull_request_total as i64)));
    out.push(("discussion_total", Value::Int(repository.discussion_total as i64)));
    out.push(("release_total", Value::Int(repository.release_total as i64)));
    assert(engineering::fields_view(out@) =~= repository_base(*repository));
    out
}

/// The node of a repository.
pub open spec fn repository_view(repository: Repository) -> GraphNodeView {
    let described = fields::with_optional(
        repository_base(repository),
        "description"@,
        text::opt_view(repository.description),
    );
    let spoken = fields::with_optional(
        described,
        "primary_language"@,
        text::opt_view(repository.primary_language),
    );
    let created = fields::with_time(
        spoken,
        "created_at"@,
        "created_at_ms"@,
        Some(repository.created_at@),
    );
    let updated = fields::with_time(
        created,
        "updated_at"@,
        "updated_at_ms"@,
        Some(repository.updated_at@),
    );
    let language = match repository.primary_language {
        Some(name) => name@,
        None => "unknown"@,
    };
    engineering::node_of(
        "Repository"@,
        updated,
        seq![
            "GitHub repository "@ + repository.name_with_owner@ + ". "@ + fields::or_empty(
                repository.description,
            ) + " Primary language "@ + language + "."@,
        ],
        repository.name_with_owner@,
    )
}

/// Makes the node of a repository.
pub fn repository_node(repository: &Repository) -> (r: GraphNode)
    ensures
        r@ == repository_view(*repository),
{
    let mut properties = repository_fields(repository);
    push_optional_string(&mut properties, "description", &repository.description);
    push_optional_string(&mut properties, "primary_language", &repository.primary_language);
    push_datetime(
        &mut properties,
        "created_at",
        "created_at_ms",
        Some(repository.created_at.as_str()),
    );
    push_datetime(
        &mut properties,
        "updated_at",
        "updated_at_ms",
        Some(repository.updated_at.as_str()),
    );
    let language = match &repository.primary_language {
        Some(name) => name.clone(),
        None => "unknown".to_owned(),
    };
    let description = text_or_empty(&repository.description);
    let start = concat6(
        "GitHub repository ",
        repository.name_with_owner.as_str(),
        ". ",
        description.as_str(),
        " Primary language ",
        language.as_str(),
    );
    let sentence = concat2(start.as_str(), ".");
    let mut texts: Vec<String> = Vec::new();
    let ghost view = sentence@;
    texts.push(sentence);
    assert(text::views(texts@) =~= seq![view]);
    GraphNode::new("Repository", properties, texts, repository.name_with_owner.clone())
}

impl GraphView {
    /// The graph with one of the repository's topics.
    pub open spec fn with_topic(
        self,
        repository_key: Seq<char>,
        name_with_owner: Seq<char>,
        topic: Seq<char>,
    ) -> GraphView {
        let key = "topic:"@ + text::spec_lowercase(topic);
        self.with_node(
            key,
            engineering::node_of(
                "Topic"@,
                seq![text_field("name"@, topic)],
                seq!["GitHub repository topic "@ + topic],
                topic,
            ),
            2,
        ).with_edge(
            repository_key,
            key,
            "HAS_TOPIC"@,
            Seq::empty(),
            name_with_owner + " has repository topic "@ + topic,
        )
    }

    /// The graph with the first `upto` topics.
    pub open spec fn with_topics(
        self,
        repository_key: Seq<char>,
        name_with_owner: Seq<char>,
        topics: Seq<String>,
        upto: nat,
    ) -> GraphView
        decreases upto,
    {
        if upto == 0 {
            self
        } else {
            self.with_topics(repository_key, name_with_owner, topics, (upto - 1) as nat).with_topic(
                repository_key,
                name_with_owner,
                topics[upto - 1]@,
            )
        }
    }
}

pub(crate) fn no_fields() -> (r: Vec<Field>)
    ensures
        engineering::fields_view(r@) == Seq::<(Seq<char>, ValueView)>::empty(),
{
    let r: Vec<Field> = Vec::new();
    assert(engineering::fields_view(r@) =~= Seq::<(Seq<char>, ValueView)>::empty());
    r
}

pub(crate) fn one_text(line: String) -> (r: Vec<String>)
    ensures
        text::views(r@) == seq![line@],
{
    let ghost view = line@;
    let mut texts: Vec<String> = Vec::new();
    texts.push(line);
    assert(text::views(texts@) =~= seq![view]);
    texts
}

fn add_topic(
    graph: &mut EngineeringGraph,
    repository_key: &str,
    name_with_owner: &str,
    topic: &str,
)
    requires
        old(graph)@.wf(),
    ensures
        final(graph)@ == old(graph)@.with_topic(repository_key@, name_with_owner@, topic@),
        final(graph)@.wf(),
{
    let lowered = text::lowercase(topic);
    let key = concat2("topic:", lowered.as_str());
    let mut properties: Vec<Field> = Vec::new();
    properties.push(("name", string_value(topic)));
    assert(engineering::fields_view(properties@) =~= seq![text_field("name"@, topic@)]);
    let node = GraphNode::new(
        "Topic",
        properties,
        one_text(concat2("GitHub repository topic ", topic)),
        topic.to_owned(),
    );
    graph.upsert_node(key.clone(), node, 2);
    graph.add_edge(
        repository_key,
        key.as_str(),
        "HAS_TOPIC",
        no_fields(),
        concat3(name_with_owner, " has repository topic ", topic),
    );
}

/// Adds a repository with its topics.
pub fn add_repository(graph: &mut EngineeringGraph, repository: &Repository)
    requires
        old(graph)@.wf(),
    ensures
        final(graph)@ == old(graph)@.with_repository(*repository),
        final(graph)@.wf(),
{
    let key = repository_key(repository.id.as_str());
    graph.upsert_node(key.clone(), repository_node(repository), 3);
    let ghost base = graph@;
    let mut i: usize = 0;
    while i < repository.repository_topics.len()
        invariant
            i <= repository.repository_topics.len(),
            graph@.wf(),
            graph@ == base.with_topics(
                key@,
                repository.name_with_owner@,
                repository.repository_topics@,
                i as nat,
            ),
        decreases repository.repository_topics.len() - i,
    {
        add_topic(
            graph,
            key.as_str(),
            repository.name_with_owner.as_str(),
            repository.repository_topics[i].as_str(),
        );
        i = i + 1;
    }
}

impl GraphView {
    /// The graph with a repository and its topics.
    pub open spec fn with_repository(self, repository: Repository) -> GraphView {
        let key = "repository:"@ + repository.id@;
        self.with_node(key, repository_view(repository), 3).with_topics(
            key,
            repository.name_with_owner@,
            repository.repository_topics@,
            repository.repository_topics@.len(),
        )
    }
}

/// The properties of a user.
pub open spec fn actor_base(actor: Actor) -> Seq<(Seq<char>, ValueView)> {
    seq![
        text_field("login"@, actor.login@),
        text_field("url"@, actor.url@),
        text_field("avatar_url"@, actor.avatar_url@),
        bool_field("bot"@, "[bot]"@.is_suffix_of(actor.login@)),
    ]
}

fn actor_fields(actor: &Actor) -> (r: Vec<Field>)
    ensures
        engineering::fields_view(r@) == actor_base(*actor),
{
    let mut out: Vec<Field> = Vec::new();
    out.push(("login", string_value(actor.login.as_str())));
    out.push(("url", string_value(actor.url.as_str())));
    out.push(("avatar_url", string_value(actor.avatar_url.as_str())));
    out.push(("bot", Value::Bool(text::ends_with_text(actor.login.as_str(), "[bot]"))));
    assert(engineering::fields_view(out@) =~= actor_base(*actor));
    out
}

/// The key of a user: logins differ by more than case.
pub open spec fn actor_key(actor: Actor) -> Seq<char> {
    "user:"@ + text::spec_lowercase(actor.login@)
}

impl GraphView {
    /// The graph with a user.
    pub open spec fn with_actor(self, actor: Actor) -> GraphView {
        self.with_node(
            actor_key(actor),
            engineering::node_of(
                "User"@,
                actor_base(actor),
                seq!["GitHub user "@ + actor.login@],
                actor.login@,
            ),
            2,
        )
    }

    /// The graph with the author of a node, where it has one.
    pub open spec fn with_author(
        self,
        actor: Option<Actor>,
        target_key: Seq<char>,
        target_summary: Seq<char>,
    ) -> GraphView {
        match actor {
            None => self,
            Some(a) => self.with_actor(a).with_edge(
                actor_key(a),
                target_key,
                "AUTHORED"@,
                Seq::empty(),
                "GitHub user "@ + a.login@ + " authored "@ + target_summary,
            ),
        }
    }

    /// The graph with the first `upto` assignees of a node.
    pub open spec fn with_assignees(
        self,
        target_key: Seq<char>,
        assignees: Seq<Actor>,
        target_summary: Seq<char>,
        upto: nat,
    ) -> GraphView
        decreases upto,
    {
        if upto == 0 {
            self
        } else {
            let a = assignees[upto - 1];
            self.with_assignees(
                target_key,
                assignees,
                target_summary,
                (upto - 1) as nat,
            ).with_actor(a).with_edge(
                target_key,
                actor_key(a),
                "ASSIGNED_TO"@,
                Seq::empty(),
                target_summary + " is assigned to GitHub user "@ + a.login@,
            )
        }
    }
}

/// Adds a user and gives back its key.
pub fn ensure_actor(graph: &mut EngineeringGraph, actor: &Actor) -> (r: String)
    requires
        old(graph)@.wf(),
    ensures
        final(graph)@ == old(graph)@.with_actor(*actor),
        final(graph)@.wf(),
        r@ == actor_key(*actor),
{
    let lowered = text::lowercase(actor.login.as_str());
    let key = concat2("user:", lowered.as_str());
    let node = GraphNode::new(
        "User",
        actor_fields(actor),
        one_text(concat2("GitHub user ", actor.login.as_str())),
        actor.login.clone(),
    );
    graph.upsert_node(key.clone(), node, 2);
    key
}

/// Adds the author of a node, where it has one.
pub fn add_author(
    graph: &mut EngineeringGraph,
    actor: &Option<Actor>,
    target_key: &str,
    target_summary: &str,
)
    requires
        old(graph)@.wf(),
    ensures
        final(graph)@ == old(graph)@.with_author(*actor, target_key@, target_summary@),
        final(graph)@.wf(),
{
    match actor {
        None => {},
        Some(a) => {
            let actor_key = ensure_actor(graph, a);
            graph.add_edge(
                actor_key.as_str(),
                target_key,
                "AUTHORED",
                no_fields(),
                concat4("GitHub user ", a.login.as_str(), " authored ", target_summary),
            );
        },
    }
}

/// Adds the assignees of a node.
pub fn add_assignees(
    graph: &mut EngineeringGraph,
    target_key: &str,
    assignees: &Vec<Actor>,
    target_summary: &str,
)
    requires
        old(graph)@.wf(),
    ensures
        final(graph)@ == old(graph)@.with_assignees(
            target_key@,
            assignees@,
            target_summary@,
            assignees@.len(),
        ),
        final(graph)@.wf(),
{
    let ghost base = graph@;
    let mut i: usize = 0;
    while i < assignees.len()
        invariant
            i <= assignees.len(),
            graph@.wf(),
            graph@ == base.with_assignees(target_key@, assignees@, target_summary@, i as nat),
        decreases assignees.len() - i,
    {
        let actor_key = ensure_actor(graph, &assignees[i]);
        graph.add_edge(
            target_key,
            actor_key.as_str(),
            "ASSIGNED_TO",
            no_fields(),
            concat3(
                target_summary,
                " is assigned to GitHub user ",
                assignees[i].login.as_str(),
            ),
        );
        i = i + 1;
    }
}

/// The properties of a label.
pub open spec fn label_base(label: Label) -> Seq<(Seq<char>, ValueView)> {
    seq![
        text_field("external_id"@, label.id@),
        text_field("name"@, label.name@),
        text_field("color"@, label.color@),
        text_field("url"@, label.url@),
        text_field("description"@, fields::or_empty(label.description)),
    ]
}

fn label_fields(label: &Label) -> (r: Vec<Field>)
    ensures
        engineering::fields_view(r@) == label_base(*label),
{
    let mut out: Vec<Field> = Vec::new();
    out.push(("external_id", string_value(label.id.as_str())));
    out.push(("name", string_value(label.name.as_str())));
    out.push(("color", string_value(label.color.as_str())));
    out.push(("url", string_value(label.url.as_str())));
    out.push(("description", string_value(text_or_empty(&label.description).as_str())));
    assert(engineering::fields_view(out@) =~= label_base(*label));
    out
}

/// The properties that every milestone has.
pub open spec fn milestone_base(milestone: Milestone) -> Seq<(Seq<char>, ValueView)> {
    seq![
        text_field("external_id"@, milestone.id@),
        int_field("number"@, milestone.number),
        text_field("title"@, milestone.title@),
        text_field("state"@, milestone.state@),
        text_field("url"@, milestone.url@),
        text_field("description"@, fields::or_empty(milestone.description)),
    ]
}

fn milestone_fields(milestone: &Milestone) -> (r: Vec<Field>)
    ensures
        engineering::fields_view(r@) == milestone_base(*milestone),
{
    let mut out: Vec<Field> = Vec::new();
    out.push(("external_id", string_value(milestone.id.as_str())));
    out.push(("number", Value::Int(milestone.number)));
    out.push(("title", string_value(milestone.title.as_str())));
    out.push(("state", string_value(milestone.state.as_str())));
    out.push(("url", string_value(milestone.url.as_str())));
    out.push(("description", string_value(text_or_empty(&milestone.description).as_str())));
    assert(engineering::fields_view(out@) =~= milestone_base(*milestone));
    out
}

/// The node of a milestone.
pub open spec fn milestone_view(milestone: Milestone) -> GraphNodeView {
    let created = fields::with_time(
        milestone_base(milestone),
        "created_at"@,
        "created_at_ms"@,
        Some(milestone.created_at@),
    );
    let updated = fields::with_time(
        created,
        "updated_at"@,
        "updated_at_ms"@,
        Some(milestone.updated_at@),
    );
    let due = fields::with_time(
        updated,
        "due_at"@,
        "due_at_ms"@,
        text::opt_view(milestone.due_on),
    );
    engineering::node_of(
        "Milestone"@,
        due,
        fields::title_body(
            "GitHub milestone"@,
            milestone.title@,
            fields::or_empty(milestone.description),
        ),
        milestone.title@,
    )
}

fn milestone_node(milestone: &Milestone) -> (r: GraphNode)
    ensures
        r@ == milestone_view(*milestone),
{
    let mut properties = milestone_fields(milestone);
    push_datetime(
        &mut properties,
        "created_at",
        "created_at_ms",
        Some(milestone.created_at.as_str()),
    );
    push_datetime(
        &mut properties,
        "updated_at",
        "updated_at_ms",
        Some(milestone.updated_at.as_str()),
    );
    push_datetime(&mut properties, "due_at", "due_at_ms", as_slice(&milestone.due_on));
    let description = text_or_empty(&milestone.description);
    let texts = title_body_embeddings(
        "GitHub milestone",
        milestone.title.as_str(),
        description.as_str(),
    );
    GraphNode::new("Milestone", properties, texts, milestone.title.clone())
}

impl GraphView {
    /// The graph with the first `upto` labels of a work item.
    pub open spec fn with_labels(self, target_key: Seq<char>, labels: Seq<Label>, upto: nat) -> GraphView
        decreases upto,
    {
        if upto == 0 {
            self
        } else {
            let label = labels[upto - 1];
            let key = "label:"@ + label.id@;
            self.with_labels(target_key, labels, (upto - 1) as nat).with_node(
                key,
                engineering::node_of(
                    "Label"@,
                    label_base(label),
                    seq![
                        "GitHub label "@ + label.name@ + ". "@ + fields::or_empty(
                            label.description,
                        ),
                    ],
                    label.name@,
                ),
                2,
            ).with_edge(
                target_key,
                key,
                "TAGGED"@,
                Seq::empty(),
                "GitHub work item has label "@ + label.name@,
            )
        }
    }

    /// The graph with the labels and the milestone of a work item.
    pub open spec fn with_taxonomy(
        self,
        repository_key: Seq<char>,
        target_key: Seq<char>,
        labels: Seq<Label>,
        milestone: Option<Milestone>,
    ) -> GraphView {
        let tagged = self.with_labels(target_key, labels, labels.len());
        match milestone {
            None => tagged,
            Some(m) => {
                let key = "milestone:"@ + m.id@;
                tagged.with_node(key, milestone_view(m), 2).with_edge(
                    repository_key,
                    key,
                    "HAS_MILESTONE"@,
                    Seq::empty(),
                    "Repository has milestone "@ + m.title@,
                ).with_edge(
                    target_key,
                    key,
                    "IN_MILESTONE"@,
                    Seq::empty(),
                    "GitHub work item is in milestone "@ + m.title@,
                )
            },
        }
    }
}

/// Adds the labels and the milestone of a work item.
pub fn add_taxonomy(
    graph: &mut EngineeringGraph,
    repository_key: &str,
    target_key: &str,
    labels: &Vec<Label>,
    milestone: &Option<Milestone>,
)
    requires
        old(graph)@.wf(),
    ensures
        final(graph)@ == old(graph)@.with_taxonomy(
            repository_key@,
            target_key@,
            labels@,
            *milestone,
        ),
        final(graph)@.wf(),
{
    let ghost base = graph@;
    let mut i: usize = 0;
    while i < labels.len()
        invariant
            i <= labels.len(),
            graph@.wf(),
            graph@ == base.with_labels(target_key@, labels@, i as nat),
        decreases labels.len() - i,
    {
        let label = &labels[i];
        let key = concat2("label:", label.id.as_str());
        let description = text_or_empty(&label.description);
        let node = GraphNode::new(
            "Label",
            label_fields(label),
            one_text(
                concat4("GitHub label ", label.name.as_str(), ". ", description.as_str()),
            ),
            label.name.clone(),
        );
        graph.upsert_node(key.clone(), node, 2);
        graph.add_edge(
            target_key,
            key.as_str(),
            "TAGGED",
            no_fields(),
            concat2("GitHub work item has label ", label.name.as_str()),
        );
        i = i + 1;
    }
    match milestone {
        None => {},
        Some(m) => {
            let key = concat2("milestone:", m.id.as_str());
            graph.upsert_node(key.clone(), milestone_node(m), 2);
            graph.add_edge(
                repository_key,
                key.as_str(),
                "HAS_MILESTONE",
                no_fields(),
                concat2("Repository has milestone ", m.title.as_str()),
            );
            graph.add_edge(
                target_key,
                key.as_str(),
                "IN_MILESTONE",
                no_fields(),
                concat2("GitHub work item is in milestone ", m.title.as_str()),
            );
        },
    }
}

/// The properties that every comment has.
pub open spec fn comment_base(comment: Comment, kind: Seq<char>) -> Seq<(Seq<char>, ValueView)> {
    seq![
        text_field("external_id"@, comment.id@),
        text_field("body"@, fields::stored(comment.body_text@)),
        text_field("url"@, comment.url@),
        text_field("kind"@, kind),
    ]
}

fn comment_fields(comment: &Comment, kind: &str) -> (r: Vec<Field>)
    ensures
        engineering::fields_view(r@) == comment_base(*comment, kind@),
{
    let mut out: Vec<Field> = Vec::new();
    out.push(("external_id", string_value(comment.id.as_str())));
    out.push(("body", string_value(stored_text(comment.body_text.as_str()).as_str())));
    out.push(("url", string_value(comment.url.as_str())));
    out.push(("kind", string_value(kind)));
    assert(engineering::fields_view(out@) =~= comment_base(*comment, kind@));
    out
}

/// The node of a comment.
pub open spec fn comment_view(comment: Comment, kind: Seq<char>) -> GraphNodeView {
    let created = fields::with_time(
        comment_base(comment, kind),
        "created_at"@,
        "created_at_ms"@,
        Some(comment.created_at@),
    );
    let updated = fields::with_time(
        created,
        "updated_at"@,
        "updated_at_ms"@,
        Some(comment.updated_at@),
    );
    engineering::node_of(
        "Comment"@,
        updated,
        seq!["GitHub "@ + kind + ": "@ + comment.body_text@],
        fields::summary(comment.body_text@),
    )
}

fn comment_node(comment: &Comment, kind: &str) -> (r: GraphNode)
    ensures
        r@ == comment_view(*comment, kind@),
{
    let mut properties = comment_fields(comment, kind);
    push_datetime(
        &mut properties,
        "created_at",
        "created_at_ms",
        Some(comment.created_at.as_str()),
    );
    push_datetime(
        &mut properties,
        "updated_at",
        "updated_at_ms",
        Some(comment.updated_at.as_str()),
    );
    GraphNode::new(
        "Comment",
        properties,
        one_text(concat4("GitHub ", kind, ": ", comment.body_text.as_str())),
        text_summary(comment.body_text.as_str()),
    )
}

impl GraphView {
    /// The graph with a comment on another node.
    pub open spec fn with_comment(
        self,
        parent_key: Seq<char>,
        comment: Comment,
        kind: Seq<char>,
        relationship: Seq<char>,
    ) -> GraphView {
        let key = "comment:"@ + comment.id@;
        self.with_node(key, comment_view(comment, kind), 3).with_edge(
            key,
            parent_key,
            relationship,
            fields::with_time(
                Seq::empty(),
                "created_at"@,
                "created_at_ms"@,
                Some(comment.created_at@),
            ),
            "GitHub "@ + kind + " "@ + relationship + ": "@ + fields::summary(comment.body_text@),
        ).with_author(comment.author, key, kind)
    }

    /// The graph with the first `upto` comments on a node.
    pub open spec fn with_comments(
        self,
        parent_key: Seq<char>,
        comments: Seq<Comment>,
        kind: Seq<char>,
        relationship: Seq<char>,
        upto: nat,
    ) -> GraphView
        decreases upto,
    {
        if upto == 0 {
            self
        } else {
            self.with_comments(
                parent_key,
                comments,
                kind,
                relationship,
                (upto - 1) as nat,
            ).with_comment(parent_key, comments[upto - 1], kind, relationship)
        }
    }
}

/// Adds a comment on another node.
pub fn add_comment(
    graph: &mut EngineeringGraph,
    parent_key: &str,
    comment: &Comment,
    kind: &'static str,
    relationship: &'static str,
)
    requires
        old(graph)@.wf(),
    ensures
        final(graph)@ == old(graph)@.with_comment(parent_key@, *comment, kind@, relationship@),
        final(graph)@.wf(),
{
    let key = comment_key(comment.id.as_str());
    graph.upsert_node(key.clone(), comment_node(comment, kind), 3);
    let line = text_summary(comment.body_text.as_str());
    graph.add_edge(
        key.as_str(),
        parent_key,
        relationship,
        datetime_properties("created_at", "created_at_ms", Some(comment.created_at.as_str())),
        concat6("GitHub ", kind, " ", relationship, ": ", line.as_str()),
    );
    add_author(graph, &comment.author, key.as_str(), kind);
}

/// Adds comments on another node.
pub fn add_comments(
    graph: &mut EngineeringGraph,
    parent_key: &str,
    comments: &Vec<Comment>,
    kind: &'static str,
    relationship: &'static str,
)
    requires
        old(graph)@.wf(),
    ensures
        final(graph)@ == old(graph)@.with_comments(
            parent_key@,
            comments@,
            kind@,
            relationship@,
            comments@.len(),
        ),
        final(graph)@.wf(),
{
    let ghost base = graph@;
    let mut i: usize = 0;
    while i < comments.len()
        invariant
            i <= comments.len(),
            graph@.wf(),
            graph@ == base.with_comments(
                parent_key@,
                comments@,
                kind@,
                relationship@,
                i as nat,
            ),
        decreases comments.len() - i,
    {
        add_comment(graph, parent_key, &comments[i], kind, relationship);
        i = i + 1;
    }
}

/// The properties that every review has.
pub open spec fn review_base(review: Review) -> Seq<(Seq<char>, ValueView)> {
    seq![
        text_field("external_id"@, review.id@),
        text_field("body"@, fields::stored(review.body_text@)),
        text_field("url"@, review.url@),
        text_field("state"@, review.state@),
    ]
}

fn review_fields(review: &Review) -> (r: Vec<Field>)
    ensures
        engineering::fields_view(r@) == review_base(*review),
{
    let mut out: Vec<Field> = Vec::new();
    out.push(("external_id", string_value(review.id.as_str())));
    out.push(("body", string_value(stored_text(review.body_text.as_str()).as_str())));
    out.push(("url", string_value(review.url.as_str())));
    out.push(("state", string_value(review.state.as_str())));
    assert(engineering::fields_view(out@) =~= review_base(*review));
    out
}

/// The node of a review.
pub open spec fn review_view(review: Review) -> GraphNodeView {
    let created = fields::with_time(
        review_base(review),
        "created_at"@,
        "created_at_ms"@,
        Some(review.created_at@),
    );
    let updated = fields::with_time(
        created,
        "updated_at"@,
        "updated_at_ms"@,
        Some(review.updated_at@),
    );
    let submitted = fields::with_time(
        updated,
        "submitted_at"@,
        "submitted_at_ms"@,
        text::opt_view(review.submitted_at),
    );
    engineering::node_of(
        "Review"@,
        submitted,
        seq![
            "GitHub pull request review with state "@ + review.state@ + ". "@ + review.body_text@,
        ],
        review.state@ + " review"@,
    )
}

fn review_node(review: &Review) -> (r: GraphNode)
    ensures
        r@ == review_view(*review),
{
    let mut properties = review_fields(review);
    push_datetime(
        &mut properties,
        "created_at",
        "created_at_ms",
        Some(review.created_at.as_str()),
    );
    push_datetime(
        &mut properties,
        "updated_at",
        "updated_at_ms",
        Some(review.updated_at.as_str()),
    );
    push_datetime(
        &mut properties,
        "submitted_at",
        "submitted_at_ms",
        as_slice(&review.submitted_at),
    );
    GraphNode::new(
        "Review",
        properties,
        one_text(
            concat4(
                "GitHub pull request review with state ",
                review.state.as_str(),
                ". ",
                review.body_text.as_str(),
            ),
        ),
        concat2(review.state.as_str(), " review"),
    )
}

impl GraphView {
    /// The graph with a review of a pull request.
    pub open spec fn with_review(
        self,
        pull_request_key: Seq<char>,
        number: i64,
        review: Review,
    ) -> GraphView {
        let key = "review:"@ + review.id@;
        self.with_node(key, review_view(review), 3).with_edge(
            key,
            pull_request_key,
            "REVIEWS"@,
            seq![text_field("state"@, review.state@)],
            review.state@ + " review of pull request #"@ + num(number) + ": "@ + fields::summary(
                review.body_text@,
            ),
        ).with_author(review.author, key, "pull request review"@)
    }

    /// The graph with the first `upto` reviews of a pull request.
    pub open spec fn with_reviews(
        self,
        pull_request_key: Seq<char>,
        number: i64,
        reviews: Seq<Review>,
        upto: nat,
    ) -> GraphView
        decreases upto,
    {
        if upto == 0 {
            self
        } else {
            self.with_reviews(
                pull_request_key,
                number,
                reviews,
                (upto - 1) as nat,
            ).with_review(pull_request_key, number, reviews[upto - 1])
        }
    }
}

/// Adds a review of a pull request.
pub fn add_review(
    graph: &mut EngineeringGraph,
    pull_request_key: &str,
    pull_request_number: i64,
    review: &Review,
)
    requires
        old(graph)@.wf(),
    ensures
        final(graph)@ == old(graph)@.with_review(
            pull_request_key@,
            pull_request_number,
            *review,
        ),
        final(graph)@.wf(),
{
    let key = concat2("review:", review.id.as_str());
    graph.upsert_node(key.clone(), review_node(review), 3);
    let mut properties: Vec<Field> = Vec::new();
    properties.push(("state", string_value(review.state.as_str())));
    assert(engineering::fields_view(properties@) =~= seq![text_field("state"@, review.state@)]);
    let number = signed_text(pull_request_number);
    let line = text_summary(review.body_text.as_str());
    graph.add_edge(
        key.as_str(),
        pull_request_key,
        "REVIEWS",
        properties,
        concat5(
            review.state.as_str(),
            " review of pull request #",
            number.as_str(),
            ": ",
            line.as_str(),
        ),
    );
    add_author(graph, &review.author, key.as_str(), "pull request review");
}

/// The properties that every commit has.
pub open spec fn commit_base(commit: Commit) -> Seq<(Seq<char>, ValueView)> {
    seq![
        text_field("external_id"@, commit.id@),
        text_field("oid"@, commit.oid@),
        text_field("headline"@, commit.message_headline@),
        text_field("body"@, fields::stored(commit.message_body@)),
        text_field("url"@, commit.url@),
    ]
}

fn commit_fields(commit: &Commit) -> (r: Vec<Field>)
    ensures
        engineering::fields_view(r@) == commit_base(*commit),
{
    let mut out: Vec<Field> = Vec::new();
    out.push(("external_id", string_value(commit.id.as_str())));
    out.push(("oid", string_value(commit.oid.as_str())));
    out.push(("headline", string_value(commit.message_headline.as_str())));
    out.push(("body", string_value(stored_text(commit.message_body.as_str()).as_str())));
    out.push(("url", string_value(commit.url.as_str())));
    assert(engineering::fields_view(out@) =~= commit_base(*commit));
    out
}

/// The node of a commit.
pub open spec fn commit_view(commit: Commit) -> GraphNodeView {
    let base = commit_base(commit);
    let named = match commit.author {
        Some(author) => match author.name {
            Some(name) => base.push(text_field("author_name"@, name@)),
            None => base,
        },
        None => base,
    };
    let authored = fields::with_time(
        named,
        "authored_at"@,
        "authored_at_ms"@,
        Some(commit.authored_date@),
    );
    let committed = fields::with_time(
        authored,
        "committed_at"@,
        "committed_at_ms"@,
        Some(commit.committed_date@),
    );
    engineering::node_of(
        "Commit"@,
        committed,
        fields::title_body("Git commit"@, commit.message_headline@, commit.message_body@),
        "commit "@ + fields::short(commit.oid@) + " "@ + commit.message_headline@,
    )
}

fn commit_node(commit: &Commit) -> (r: GraphNode)
    ensures
        r@ == commit_view(*commit),
{
    let mut properties = commit_fields(commit);
    let ghost base = engineering::fields_view(properties@);
    match &commit.author {
        Some(author) => match &author.name {
            Some(name) => {
                properties.push(("author_name", string_value(name.as_str())));
                assert(engineering::fields_view(properties@) =~= base.push(
                    text_field("author_name"@, name@),
                ));
            },
            None => {},
        },
        None => {},
    }
    push_datetime(
        &mut properties,
        "authored_at",
        "authored_at_ms",
        Some(commit.authored_date.as_str()),
    );
    push_datetime(
        &mut properties,
        "committed_at",
        "committed_at_ms",
        Some(commit.committed_date.as_str()),
    );
    let texts = title_body_embeddings(
        "Git commit",
        commit.message_headline.as_str(),
        commit.message_body.as_str(),
    );
    let start = short_oid(commit.oid.as_str());
    GraphNode::new(
        "Commit",
        properties,
        texts,
        concat4("commit ", start.as_str(), " ", commit.message_headline.as_str()),
    )
}

impl GraphView {
    /// The graph with a commit of a pull request.
    pub open spec fn with_commit(
        self,
        pull_request_key: Seq<char>,
        number: i64,
        commit: Commit,
        complete: bool,
    ) -> GraphView {
        let key = "commit:"@ + commit.oid@;
        let linked = self.with_node(
            key,
            commit_view(commit),
            if complete {
                3
            } else {
                1
            },
        ).with_edge(
            pull_request_key,
            key,
            "HAS_COMMIT"@,
            Seq::empty(),
            "Pull request #"@ + num(number) + " includes commit "@ + fields::short(commit.oid@)
                + ": "@ + commit.message_headline@,
        );
        match commit.author {
            Some(author) => linked.with_author(
                author.user,
                key,
                "commit "@ + fields::short(commit.oid@),
            ),
            None => linked,
        }
    }

    /// The graph with the first `upto` commits of a pull request.
    pub open spec fn with_commits(
        self,
        pull_request_key: Seq<char>,
        number: i64,
        commits: Seq<PullRequestCommit>,
        upto: nat,
    ) -> GraphView
        decreases upto,
    {
        if upto == 0 {
            self
        } else {
            self.with_commits(
                pull_request_key,
                number,
                commits,
                (upto - 1) as nat,
            ).with_commit(pull_request_key, number, commits[upto - 1].commit, true)
        }
    }
}

/// Adds a commit of a pull request.
pub fn add_commit(
    graph: &mut EngineeringGraph,
    pull_request_key: &str,
    pull_request_number: i64,
    commit: &Commit,
    complete: bool,
)
    requires
        old(graph)@.wf(),
    ensures
        final(graph)@ == old(graph)@.with_commit(
            pull_request_key@,
            pull_request_number,
            *commit,
            complete,
        ),
        final(graph)@.wf(),
{
    let key = commit_key(commit.oid.as_str());
    let rank: u8 = if complete {
        3
    } else {
        1
    };
    graph.upsert_node(key.clone(), commit_node(commit), rank);
    let number = signed_text(pull_request_number);
    let start = short_oid(commit.oid.as_str());
    graph.add_edge(
        pull_request_key,
        key.as_str(),
        "HAS_COMMIT",
        no_fields(),
        concat6(
            "Pull request #",
            number.as_str(),
            " includes commit ",
            start.as_str(),
            ": ",
            commit.message_headline.as_str(),
        ),
    );
    match &commit.author {
        Some(author) => {
            let what = concat2("commit ", start.as_str());
            add_author(graph, &author.user, key.as_str(), what.as_str());
        },
        None => {},
    }
}

impl GraphView {
    /// The graph with a file that a pull request changes.
    pub open spec fn with_file(
        self,
        repository_key: Seq<char>,
        pull_request_key: Seq<char>,
        number: i64,
        file: ChangedFile,
    ) -> GraphView {
        let key = "file:"@ + file.path@;
        self.with_node(
            key,
            engineering::node_of(
                "File"@,
                seq![text_field("path"@, file.path@)],
                seq!["Repository file path "@ + file.path@],
                file.path@,
            ),
            2,
        ).with_edge(
            repository_key,
            key,
            "CONTAINS_FILE"@,
            Seq::empty(),
            "Repository contains file "@ + file.path@,
        ).with_edge(
            pull_request_key,
            key,
            "CHANGES"@,
            seq![
                int_field("additions"@, file.additions),
                int_field("deletions"@, file.deletions),
                text_field("change_type"@, file.change_type@),
            ],
            "Pull request #"@ + num(number) + " "@ + text::spec_lowercase(file.change_type@)
                + " file "@ + file.path@ + (" with "@ + num(file.additions) + " additions and "@
                + num(file.deletions) + " deletions"@),
        )
    }

    /// The graph with the first `upto` files that a pull request changes.
    pub open spec fn with_files(
        self,
        repository_key: Seq<char>,
        pull_request_key: Seq<char>,
        number: i64,
        files: Seq<ChangedFile>,
        upto: nat,
    ) -> GraphView
        decreases upto,
    {
        if upto == 0 {
            self
        } else {
            self.with_files(
                repository_key,
                pull_request_key,
                number,
                files,
                (upto - 1) as nat,
            ).with_file(repository_key, pull_request_key, number, files[upto - 1])
        }
    }
}

/// Adds a file that a pull request changes.
pub fn add_file(
    graph: &mut EngineeringGraph,
    repository_key: &str,
    pull_request_key: &str,
    pull_request_number: i64,
    file: &ChangedFile,
)
    requires
        old(graph)@.wf(),
    ensures
        final(graph)@ == old(graph)@.with_file(
            repository_key@,
            pull_request_key@,
            pull_request_number,
            *file,
        ),
        final(graph)@.wf(),
{
    let path = file.path.as_str();
    let key = concat2("file:", path);
    let mut properties: Vec<Field> = Vec::new();
    properties.push(("path", string_value(path)));
    assert(engineering::fields_view(properties@) =~= seq![text_field("path"@, file.path@)]);
    let node = GraphNode::new(
        "File",
        properties,
        one_text(concat2("Repository file path ", path)),
        file.path.clone(),
    );
    graph.upsert_node(key.clone(), node, 2);
    graph.add_edge(
        repository_key,
        key.as_str(),
        "CONTAINS_FILE",
        no_fields(),
        concat2("Repository contains file ", path),
    );
    let mut changes: Vec<Field> = Vec::new();
    changes.push(("additions", Value::Int(file.additions)));
    changes.push(("deletions", Value::Int(file.deletions)));
    changes.push(("change_type", string_value(file.change_type.as_str())));
    assert(engineering::fields_view(changes@) =~= seq![
        int_field("additions"@, file.additions),
        int_field("deletions"@, file.deletions),
        text_field("change_type"@, file.change_type@),
    ]);
    let number = signed_text(pull_request_number);
    let verb = text::lowercase(file.change_type.as_str());
    let additions = signed_text(file.additions);
    let deletions = signed_text(file.deletions);
    let head = concat6("Pull request #", number.as_str(), " ", verb.as_str(), " file ", path);
    let tail = concat5(
        " with ",
        additions.as_str(),
        " additions and ",
        deletions.as_str(),
        " deletions",
    );
    graph.add_edge(
        pull_request_key,
        key.as_str(),
        "CHANGES",
        changes,
        concat2(head.as_str(), tail.as_str()),
    );
}

} // verus!
