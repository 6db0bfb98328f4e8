//! What any sequence of additions of GitHub records leaves in a graph:
//! nothing is lost, nothing is added twice, a pull request is as complete as
//! the best report of it, and a closing is listed once.

use vstd::prelude::*;
use vstd::string::*;

use crate::engineering;
use crate::engineering::{GraphNodeView, GraphView};
use crate::fields;
use crate::github_data::{
    Actor, ChangedFile, Comment, Commit, Discussion, Issue, Label, Milestone, PullRequest,
    PullRequestCommit, Release, Repository, Review,
};
use crate::github_items;
use crate::github_laws;
use crate::github_model;
use crate::graph::ValueView;
use crate::text;

verus! {

/// The later graph is well formed and has every key and every relationship of
/// the earlier one, in place. A node is as it was unless a better record
/// replaced it.
pub open spec fn grown(before: GraphView, after: GraphView) -> bool {
    &&& after.wf()
    &&& before.keys.len() <= after.keys.len()
    &&& forall|i: int|
        0 <= i < before.keys.len() ==> #[trigger] after.keys[i] == before.keys[i]
    &&& forall|i: int|
        0 <= i < before.keys.len() ==> (#[trigger] after.ranks[i]) >= before.ranks[i]
    &&& forall|i: int|
        0 <= i < before.keys.len() && after.ranks[i] == before.ranks[i]
            ==> #[trigger] after.nodes[i] == before.nodes[i]
    &&& before.edges.len() <= after.edges.len()
    &&& forall|i: int|
        0 <= i < before.edges.len() ==> #[trigger] after.edges[i] == before.edges[i]
}

/// Whether a node says that its details are complete, or that they are not.
pub open spec fn details(node: GraphNodeView, complete: bool) -> bool {
    forall|b: bool|
        #[trigger] node.properties.contains(github_model::bool_field("detail_complete"@, b)) <==> b
            == complete
}

/// Whether the graph joins the nodes under the label by exactly one
/// relationship.
pub open spec fn listed_once(
    g: GraphView,
    source: Seq<char>,
    target: Seq<char>,
    label: Seq<char>,
) -> bool {
    &&& g.links(source, target, label)
    &&& forall|i: int, j: int|
        0 <= i < g.edges.len() && 0 <= j < g.edges.len() && engineering::same_link(
            #[trigger] g.edges[i],
            source,
            target,
            label,
        ) && engineering::same_link(#[trigger] g.edges[j], source, target, label) ==> i == j
}

/// One call that adds to a graph, with its arguments.
pub enum Addition {
    Repository { repository: Repository },
    Issue { repository_key: Seq<char>, issue: Issue, complete: bool },
    PullRequest { repository_key: Seq<char>, pull_request: PullRequest, complete: bool },
    Discussion { repository_key: Seq<char>, discussion: Discussion },
    Release { repository_key: Seq<char>, release: Release },
    Actor { actor: Actor },
    Author { actor: Option<Actor>, target_key: Seq<char>, summary: Seq<char> },
    Assignees { target_key: Seq<char>, assignees: Seq<Actor>, summary: Seq<char> },
    Taxonomy {
        repository_key: Seq<char>,
        target_key: Seq<char>,
        labels: Seq<Label>,
        milestone: Option<Milestone>,
    },
    Comment {
        parent_key: Seq<char>,
        comment: Comment,
        kind: Seq<char>,
        relationship: Seq<char>,
    },
    Review { pull_request_key: Seq<char>, number: i64, review: Review },
    Commit { pull_request_key: Seq<char>, number: i64, commit: Commit, complete: bool },
    File {
        repository_key: Seq<char>,
        pull_request_key: Seq<char>,
        number: i64,
        file: ChangedFile,
    },
}

impl GraphView {
    /// The graph after a call that adds to it.
    pub open spec fn with_addition(self, addition: Addition) -> GraphView {
        match addition {
            Addition::Repository { repository } => self.with_repository(repository),
            Addition::Issue { repository_key, issue, complete } => self.with_issue(
                repository_key,
                issue,
                complete,
            ),
            Addition::PullRequest { repository_key, pull_request, complete } => {
                self.with_pull_request(repository_key, pull_request, complete)
            },
            Addition::Discussion { repository_key, discussion } => self.with_discussion(
                repository_key,
                discussion,
            ),
            Addition::Release { repository_key, release } => self.with_release(
                repository_key,
                release,
            ),
            Addition::Actor { actor } => self.with_actor(actor),
            Addition::Author { actor, target_key, summary } => self.with_author(
                actor,
                target_key,
                summary,
            ),
            Addition::Assignees { target_key, assignees, summary } => self.with_assignees(
                target_key,
                assignees,
                summary,
                assignees.len(),
            ),
            Addition::Taxonomy { repository_key, target_key, labels, milestone } => {
                self.with_taxonomy(repository_key, target_key, labels, milestone)
            },
            Addition::Comment { parent_key, comment, kind, relationship } => self.with_comment(
                parent_key,
                comment,
                kind,
                relationship,
            ),
            Addition::Review { pull_request_key, number, review } => self.with_review(
                pull_request_key,
                number,
                review,
            ),
            Addition::Commit { pull_request_key, number, commit, complete } => self.with_commit(
                pull_request_key,
                number,
                commit,
                complete,
            ),
            Addition::File { repository_key, pull_request_key, number, file } => self.with_file(
                repository_key,
                pull_request_key,
                number,
                file,
            ),
        }
    }
}

/// The graph that additions build one after another, from nothing.
pub open spec fn built(additions: Seq<Addition>) -> GraphView
    decreases additions.len(),
{
    if additions.len() == 0 {
        GraphView::empty()
    } else {
        built(additions.drop_last()).with_addition(additions.last())
    }
}

/// Whether an addition is a complete report of the pull request.
pub open spec fn completes(addition: Addition, id: Seq<char>) -> bool {
    addition matches Addition::PullRequest { pull_request, complete, .. } && complete
        && pull_request.id@ == id
}

/// Whether one of the additions is a complete report of the pull request.
pub open spec fn reported(additions: Seq<Addition>, id: Seq<char>) -> bool {
    exists|i: int| 0 <= i < additions.len() && completes(#[trigger] additions[i], id)
}

/// Whether an addition tells that the pull request closes the issue: as the
/// pull request, or as the issue.
pub open spec fn tells(addition: Addition, pull_request_id: Seq<char>, issue_id: Seq<char>) -> bool {
    match addition {
        Addition::PullRequest { pull_request, .. } => pull_request.id@ == pull_request_id
            && exists|k: int|
            0 <= k < pull_request.closing_issues@.len() && (
            #[trigger] pull_request.closing_issues@[k]).id@ == issue_id,
        Addition::Issue { issue, .. } => issue.id@ == issue_id && exists|k: int|
            0 <= k < issue.closed_by_pull_requests@.len() && (
            #[trigger] issue.closed_by_pull_requests@[k]).id@ == pull_request_id,
        _ => false,
    }
}

/// A step from graph to graph.
type Step = spec_fn(GraphView) -> GraphView;

/// Whether a key may be a pull request's: no other kind of key starts alike.
spec fn pull(key: Seq<char>) -> bool {
    key.len() > 0 && key[0] == 'p'
}

/// Whether the record under a key is of the highest rank.
spec fn complete_at(g: GraphView, key: Seq<char>) -> bool {
    exists|i: int| 0 <= i < g.keys.len() && #[trigger] g.keys[i] == key && g.ranks[i] == 3
}

/// Pull requests have one of two ranks, by whether their details are
/// complete.
spec fn detailed(g: GraphView) -> bool {
    forall|i: int|
        0 <= i < g.keys.len() && pull(#[trigger] g.keys[i]) ==> {
            &&& g.ranks[i] == 1 || g.ranks[i] == 3
            &&& details(g.nodes[i], g.ranks[i] == 3)
        }
}

/// Pull requests stay detailed, and none becomes complete but the raised one.
spec fn keeps(before: GraphView, after: GraphView, raised: Option<Seq<char>>) -> bool {
    detailed(before) ==> {
        &&& detailed(after)
        &&& forall|key: Seq<char>|
            pull(key) ==> (#[trigger] complete_at(after, key) <==> complete_at(before, key)
                || raised == Some(key))
    }
}

/// What every step does: the graph grows, pull requests are kept, and the
/// step changes nothing of a graph that has grown from its result.
spec fn tame(f: Step, raised: Option<Seq<char>>) -> bool {
    &&& forall|g: GraphView| g.wf() ==> grown(g, #[trigger] f(g)) && keeps(g, f(g), raised)
    &&& forall|g: GraphView, h: GraphView| g.wf() && #[trigger] grown(f(g), h) ==> f(h) == h
}

spec fn chain(f: Step, next: Step) -> Step {
    |g: GraphView| next(f(g))
}

spec fn same() -> Step {
    |g: GraphView| g
}

spec fn node(key: Seq<char>, record: GraphNodeView, rank: u8) -> Step {
    |g: GraphView| g.with_node(key, record, rank)
}

spec fn edge(
    source: Seq<char>,
    target: Seq<char>,
    label: Seq<char>,
    properties: Seq<(Seq<char>, ValueView)>,
    embedding_text: Seq<char>,
) -> Step {
    |g: GraphView| g.with_edge(source, target, label, properties, embedding_text)
}

proof fn lemma_grown(a: GraphView, b: GraphView, c: GraphView)
    requires
        grown(a, b),
        grown(b, c),
    ensures
        grown(a, c),
{
    assert forall|i: int| 0 <= i < a.keys.len() implies #[trigger] c.keys[i] == a.keys[i] by {
        assert(b.keys[i] == a.keys[i]);
    }
    assert forall|i: int| 0 <= i < a.keys.len() implies (#[trigger] c.ranks[i]) >= a.ranks[i] by {
        assert(b.ranks[i] >= a.ranks[i]);
    }
    assert forall|i: int|
        0 <= i < a.keys.len() && c.ranks[i] == a.ranks[i] implies #[trigger] c.nodes[i]
        == a.nodes[i] by {
        assert(b.ranks[i] >= a.ranks[i]);
        assert(c.ranks[i] >= b.ranks[i]);
        assert(b.nodes[i] == a.nodes[i]);
    }
    assert forall|i: int| 0 <= i < a.edges.len() implies #[trigger] c.edges[i] == a.edges[i] by {
        assert(b.edges[i] == a.edges[i]);
    }
}

proof fn lemma_same()
    ensures
        tame(same(), None),
{
}

/// Two steps are a step; the first may raise a pull request.
proof fn lemma_chain(f: Step, next: Step, raised: Option<Seq<char>>)
    requires
        tame(f, raised),
        tame(next, None),
    ensures
        tame(chain(f, next), raised),
{
    let both = chain(f, next);
    assert forall|g: GraphView| g.wf() implies grown(g, #[trigger] both(g)) && keeps(
        g,
        both(g),
        raised,
    ) by {
        let m = f(g);
        assert(grown(g, m) && keeps(g, m, raised));
        assert(grown(m, next(m)) && keeps(m, next(m), None));
        lemma_grown(g, m, next(m));
        assert(both(g) == next(m));
    }
    assert forall|g: GraphView, h: GraphView|
        g.wf() && #[trigger] grown(both(g), h) implies both(h) == h by {
        let m = f(g);
        assert(grown(g, m));
        assert(grown(m, next(m)));
        assert(both(g) == next(m));
        lemma_grown(m, next(m), h);
        assert(f(h) == h);
        assert(next(h) == h);
    }
}

/// A step that does the same as a tame one is tame.
proof fn lemma_alike(f: Step, other: Step, raised: Option<Seq<char>>)
    requires
        tame(f, raised),
        forall|g: GraphView| #[trigger] other(g) == f(g),
    ensures
        tame(other, raised),
{
    assert forall|g: GraphView| g.wf() implies grown(g, #[trigger] other(g)) && keeps(
        g,
        other(g),
        raised,
    ) by {
        assert(grown(g, f(g)) && keeps(g, f(g), raised));
    }
    assert forall|g: GraphView, h: GraphView|
        g.wf() && #[trigger] grown(other(g), h) implies other(h) == h by {
        assert(grown(f(g), h));
        assert(other(h) == f(h));
    }
}

proof fn lemma_index(g: GraphView, i: int)
    requires
        g.wf(),
        0 <= i < g.keys.len(),
    ensures
        g.keys.contains(g.keys[i]),
        g.keys.index_of(g.keys[i]) == i,
{
    let k = g.keys.index_of(g.keys[i]);
    assert(g.keys.contains(g.keys[i]));
    assert(0 <= k < g.keys.len() && g.keys[k] == g.keys[i]);
}

proof fn lemma_node_grows(g: GraphView, key: Seq<char>, record: GraphNodeView, rank: u8)
    requires
        g.wf(),
    ensures
        grown(g, g.with_node(key, record, rank)),
        ({
            let n = g.with_node(key, record, rank);
            &&& n.keys.contains(key)
            &&& n.ranks[n.keys.index_of(key)] >= rank
        }),
{
    let n = g.with_node(key, record, rank);
    if g.keys.contains(key) {
        let i = g.keys.index_of(key);
        assert(0 <= i < g.keys.len() && g.keys[i] == key);
    } else {
        assert(n.keys.last() == key);
        assert forall|i: int, j: int| 0 <= i < n.keys.len() && 0 <= j < n.keys.len() && i
            != j implies n.keys[i] != n.keys[j] by {
            if i == g.keys.len() {
                assert(g.keys.contains(g.keys[j]));
            } else if j == g.keys.len() {
                assert(g.keys.contains(g.keys[i]));
            }
        }
        lemma_index(n, g.keys.len() as int);
    }
}

/// A graph that has a record at least as good under the key is not changed.
proof fn lemma_node_absorbed(
    g: GraphView,
    key: Seq<char>,
    record: GraphNodeView,
    rank: u8,
    h: GraphView,
)
    requires
        g.wf(),
        grown(g.with_node(key, record, rank), h),
    ensures
        h.with_node(key, record, rank) == h,
{
    lemma_node_grows(g, key, record, rank);
    let n = g.with_node(key, record, rank);
    let i = n.keys.index_of(key);
    assert(n.keys[i] == key);
    assert(h.keys[i] == key);
    lemma_index(h, i);
    assert(h.ranks[i] >= n.ranks[i]);
}

/// A record of another kind than a pull request.
proof fn lemma_node(key: Seq<char>, record: GraphNodeView, rank: u8)
    requires
        !pull(key),
    ensures
        tame(node(key, record, rank), None),
{
    let f = node(key, record, rank);
    assert forall|g: GraphView| g.wf() implies grown(g, #[trigger] f(g)) && keeps(
        g,
        f(g),
        None,
    ) by {
        lemma_node_grows(g, key, record, rank);
        lemma_node_keeps(g, key, record, rank, None);
    }
    assert forall|g: GraphView, h: GraphView| g.wf() && #[trigger] grown(f(g), h) implies f(h)
        == h by {
        lemma_node_absorbed(g, key, record, rank, h);
    }
}

/// The record of a pull request.
proof fn lemma_pull_node(key: Seq<char>, record: GraphNodeView, complete: bool)
    requires
        pull(key),
        details(record, complete),
    ensures
        tame(
            node(key, record, github_items::detail_rank(complete)),
            if complete {
                Some(key)
            } else {
                None
            },
        ),
{
    let rank = github_items::detail_rank(complete);
    let raised = if complete {
        Some(key)
    } else {
        None
    };
    let f = node(key, record, rank);
    assert forall|g: GraphView| g.wf() implies grown(g, #[trigger] f(g)) && keeps(
        g,
        f(g),
        raised,
    ) by {
        lemma_node_grows(g, key, record, rank);
        lemma_node_keeps(g, key, record, rank, raised);
    }
    assert forall|g: GraphView, h: GraphView| g.wf() && #[trigger] grown(f(g), h) implies f(h)
        == h by {
        lemma_node_absorbed(g, key, record, rank, h);
    }
}

proof fn lemma_node_keeps(
    g: GraphView,
    key: Seq<char>,
    record: GraphNodeView,
    rank: u8,
    raised: Option<Seq<char>>,
)
    requires
        g.wf(),
        pull(key) ==> (rank == 1 || rank == 3) && details(record, rank == 3),
        raised == if pull(key) && rank == 3 {
            Some(key)
        } else {
            None
        },
    ensures
        keeps(g, g.with_node(key, record, rank), raised),
{
    let n = g.with_node(key, record, rank);
    lemma_node_grows(g, key, record, rank);
    if detailed(g) {
        let slot = n.keys.index_of(key);
        assert(n.keys[slot] == key);
        if g.keys.contains(key) {
            let i = g.keys.index_of(key);
            assert(g.keys[i] == key);
            assert(slot == i);
        }
        assert forall|i: int| 0 <= i < n.keys.len() && pull(#[trigger] n.keys[i]) implies {
            &&& n.ranks[i] == 1 || n.ranks[i] == 3
            &&& details(n.nodes[i], n.ranks[i] == 3)
        } by {
            if i < g.keys.len() {
                assert(g.keys[i] == n.keys[i]);
                if i == slot {
                    assert(g.keys.contains(key));
                }
            } else {
                assert(n.keys[i] == key);
            }
        }
        assert forall|k: Seq<char>| pull(k) implies (#[trigger] complete_at(n, k)
            <==> complete_at(g, k) || raised == Some(k)) by {
            if complete_at(n, k) {
                let i = choose|i: int|
                    0 <= i < n.keys.len() && #[trigger] n.keys[i] == k && n.ranks[i] == 3;
                if i < g.keys.len() {
                    assert(g.keys[i] == k);
                    if g.ranks[i] != 3 {
                        assert(i == slot);
                    }
                } else {
                    assert(k == key);
                }
            }
            if complete_at(g, k) {
                let i = choose|i: int|
                    0 <= i < g.keys.len() && #[trigger] g.keys[i] == k && g.ranks[i] == 3;
                assert(n.keys[i] == k);
                assert(pull(g.keys[i]));
                if i == slot {
                    assert(k == key);
                }
                assert(n.ranks[i] == 3);
            }
            if raised == Some(k) {
                assert(n.keys[slot] == k);
                if g.keys.contains(key) {
                    assert(pull(g.keys[slot]));
                }
                assert(n.ranks[slot] == 3);
            }
        }
    }
}

proof fn lemma_edge(
    source: Seq<char>,
    target: Seq<char>,
    label: Seq<char>,
    properties: Seq<(Seq<char>, ValueView)>,
    embedding_text: Seq<char>,
)
    ensures
        tame(edge(source, target, label, properties, embedding_text), None),
{
    let f = edge(source, target, label, properties, embedding_text);
    assert forall|g: GraphView| g.wf() implies grown(g, #[trigger] f(g)) && keeps(
        g,
        f(g),
        None,
    ) by {
        let n = f(g);
        assert(n == g.with_edge(source, target, label, properties, embedding_text));
        assert(detailed(g) ==> detailed(n));
        assert forall|k: Seq<char>| pull(k) implies (#[trigger] complete_at(n, k)
            <==> complete_at(g, k)) by {
            assert(n.keys == g.keys && n.ranks == g.ranks);
        }
    }
    assert forall|g: GraphView, h: GraphView| g.wf() && #[trigger] grown(f(g), h) implies f(h)
        == h by {
        let n = f(g);
        lemma_edge_links(g, source, target, label, properties, embedding_text);
        lemma_links_stay(n, h, source, target, label);
    }
}

proof fn lemma_edge_links(
    g: GraphView,
    source: Seq<char>,
    target: Seq<char>,
    label: Seq<char>,
    properties: Seq<(Seq<char>, ValueView)>,
    embedding_text: Seq<char>,
)
    ensures
        g.with_edge(source, target, label, properties, embedding_text).links(
            source,
            target,
            label,
        ),
{
    let n = g.with_edge(source, target, label, properties, embedding_text);
    if !g.links(source, target, label) {
        assert(engineering::same_link(n.edges[g.edges.len() as int], source, target, label));
    }
}

proof fn lemma_links_stay(
    n: GraphView,
    h: GraphView,
    source: Seq<char>,
    target: Seq<char>,
    label: Seq<char>,
)
    requires
        grown(n, h),
        n.links(source, target, label),
    ensures
        h.links(source, target, label),
{
    let i = choose|i: int|
        0 <= i < n.edges.len() && engineering::same_link(
            #[trigger] n.edges[i],
            source,
            target,
            label,
        );
    assert(engineering::same_link(h.edges[i], source, target, label));
}

/// Keys of other kinds than a pull request's.
proof fn lemma_plain()
    ensures
        forall|s: Seq<char>| !pull(#[trigger] ("repository:"@ + s)),
        forall|s: Seq<char>| !pull(#[trigger] ("topic:"@ + s)),
        forall|s: Seq<char>| !pull(#[trigger] ("user:"@ + s)),
        forall|s: Seq<char>| !pull(#[trigger] ("label:"@ + s)),
        forall|s: Seq<char>| !pull(#[trigger] ("milestone:"@ + s)),
        forall|s: Seq<char>| !pull(#[trigger] ("comment:"@ + s)),
        forall|s: Seq<char>| !pull(#[trigger] ("review:"@ + s)),
        forall|s: Seq<char>| !pull(#[trigger] ("commit:"@ + s)),
        forall|s: Seq<char>| !pull(#[trigger] ("file:"@ + s)),
        forall|s: Seq<char>| !pull(#[trigger] ("issue:"@ + s)),
        forall|s: Seq<char>| !pull(#[trigger] ("discussion:"@ + s)),
        forall|s: Seq<char>| !pull(#[trigger] ("discussion-category:"@ + s)),
        forall|s: Seq<char>| !pull(#[trigger] ("release:"@ + s)),
        forall|s: Seq<char>| pull(#[trigger] ("pull-request:"@ + s)),
{
    reveal_strlit("repository:");
    reveal_strlit("topic:");
    reveal_strlit("user:");
    reveal_strlit("label:");
    reveal_strlit("milestone:");
    reveal_strlit("comment:");
    reveal_strlit("review:");
    reveal_strlit("commit:");
    reveal_strlit("file:");
    reveal_strlit("issue:");
    reveal_strlit("discussion:");
    reveal_strlit("discussion-category:");
    reveal_strlit("release:");
    reveal_strlit("pull-request:");
}

spec fn author(actor: Option<Actor>, key: Seq<char>, summary: Seq<char>) -> Step {
    |g: GraphView| g.with_author(actor, key, summary)
}

proof fn lemma_author(actor: Option<Actor>, key: Seq<char>, summary: Seq<char>)
    ensures
        tame(author(actor, key, summary), None),
{
    match actor {
        None => {
            lemma_same();
            lemma_alike(same(), author(actor, key, summary), None);
        },
        Some(a) => {
            let record = user_view(a);
            let line = "GitHub user "@ + a.login@ + " authored "@ + summary;
            let user = github_model::actor_key(a);
            lemma_plain();
            lemma_node(user, record, 2);
            lemma_edge(user, key, "AUTHORED"@, Seq::empty(), line);
            let first = node(user, record, 2);
            let second = edge(user, key, "AUTHORED"@, Seq::empty(), line);
            lemma_chain(first, second, None);
            lemma_alike(chain(first, second), author(actor, key, summary), None);
        },
    }
}

/// The node of a user.
spec fn user_view(actor: Actor) -> GraphNodeView {
    engineering::node_of(
        "User"@,
        github_model::actor_base(actor),
        seq!["GitHub user "@ + actor.login@],
        actor.login@,
    )
}

spec fn assignees(key: Seq<char>, list: Seq<Actor>, summary: Seq<char>, upto: nat) -> Step {
    |g: GraphView| g.with_assignees(key, list, summary, upto)
}

proof fn lemma_assignees(key: Seq<char>, list: Seq<Actor>, summary: Seq<char>, upto: nat)
    ensures
        tame(assignees(key, list, summary, upto), None),
    decreases upto,
{
    if upto == 0 {
        lemma_same();
        lemma_alike(same(), assignees(key, list, summary, upto), None);
    } else {
        let before = assignees(key, list, summary, (upto - 1) as nat);
        lemma_assignees(key, list, summary, (upto - 1) as nat);
        let a = list[upto - 1];
        let user = github_model::actor_key(a);
        let line = summary + " is assigned to GitHub user "@ + a.login@;
        let first = node(user, user_view(a), 2);
        let second = edge(key, user, "ASSIGNED_TO"@, Seq::empty(), line);
        lemma_plain();
        lemma_node(user, user_view(a), 2);
        lemma_edge(key, user, "ASSIGNED_TO"@, Seq::empty(), line);
        lemma_chain(before, first, None);
        lemma_chain(chain(before, first), second, None);
        lemma_alike(
            chain(chain(before, first), second),
            assignees(key, list, summary, upto),
            None,
        );
    }
}

spec fn labels(key: Seq<char>, list: Seq<Label>, upto: nat) -> Step {
    |g: GraphView| g.with_labels(key, list, upto)
}

proof fn lemma_labels(key: Seq<char>, list: Seq<Label>, upto: nat)
    ensures
        tame(labels(key, list, upto), None),
    decreases upto,
{
    if upto == 0 {
        lemma_same();
        lemma_alike(same(), labels(key, list, upto), None);
    } else {
        let before = labels(key, list, (upto - 1) as nat);
        lemma_labels(key, list, (upto - 1) as nat);
        let label = list[upto - 1];
        let at = "label:"@ + label.id@;
        let record = engineering::node_of(
            "Label"@,
            github_model::label_base(label),
            seq!["GitHub label "@ + label.name@ + ". "@ + fields::or_empty(label.description)],
            label.name@,
        );
        let line = "GitHub work item has label "@ + label.name@;
        let first = node(at, record, 2);
        let second = edge(key, at, "TAGGED"@, Seq::empty(), line);
        lemma_plain();
        lemma_node(at, record, 2);
        lemma_edge(key, at, "TAGGED"@, Seq::empty(), line);
        lemma_chain(before, first, None);
        lemma_chain(chain(before, first), second, None);
        lemma_alike(chain(chain(before, first), second), labels(key, list, upto), None);
    }
}

spec fn taxonomy(
    repository_key: Seq<char>,
    key: Seq<char>,
    list: Seq<Label>,
    milestone: Option<Milestone>,
) -> Step {
    |g: GraphView| g.with_taxonomy(repository_key, key, list, milestone)
}

proof fn lemma_taxonomy(
    repository_key: Seq<char>,
    key: Seq<char>,
    list: Seq<Label>,
    milestone: Option<Milestone>,
)
    ensures
        tame(taxonomy(repository_key, key, list, milestone), None),
{
    let whole = taxonomy(repository_key, key, list, milestone);
    let tagged = labels(key, list, list.len());
    lemma_labels(key, list, list.len());
    match milestone {
        None => {
            lemma_alike(tagged, whole, None);
        },
        Some(m) => {
            let at = "milestone:"@ + m.id@;
            let record = github_model::milestone_view(m);
            let has = "Repository has milestone "@ + m.title@;
            let is_in = "GitHub work item is in milestone "@ + m.title@;
            let first = node(at, record, 2);
            let second = edge(repository_key, at, "HAS_MILESTONE"@, Seq::empty(), has);
            let third = edge(key, at, "IN_MILESTONE"@, Seq::empty(), is_in);
            lemma_plain();
            lemma_node(at, record, 2);
            lemma_edge(repository_key, at, "HAS_MILESTONE"@, Seq::empty(), has);
            lemma_edge(key, at, "IN_MILESTONE"@, Seq::empty(), is_in);
            lemma_chain(tagged, first, None);
            lemma_chain(chain(tagged, first), second, None);
            lemma_chain(chain(chain(tagged, first), second), third, None);
            lemma_alike(chain(chain(chain(tagged, first), second), third), whole, None);
        },
    }
}

spec fn comment(
    parent: Seq<char>,
    item: Comment,
    kind: Seq<char>,
    relationship: Seq<char>,
) -> Step {
    |g: GraphView| g.with_comment(parent, item, kind, relationship)
}

proof fn lemma_comment(
    parent: Seq<char>,
    item: Comment,
    kind: Seq<char>,
    relationship: Seq<char>,
)
    ensures
        tame(comment(parent, item, kind, relationship), None),
{
    let at = "comment:"@ + item.id@;
    let record = github_model::comment_view(item, kind);
    let dated = fields::with_time(
        Seq::empty(),
        "created_at"@,
        "created_at_ms"@,
        Some(item.created_at@),
    );
    let line = "GitHub "@ + kind + " "@ + relationship + ": "@ + fields::summary(item.body_text@);
    let first = node(at, record, 3);
    let second = edge(at, parent, relationship, dated, line);
    let third = author(item.author, at, kind);
    lemma_plain();
    lemma_node(at, record, 3);
    lemma_edge(at, parent, relationship, dated, line);
    lemma_author(item.author, at, kind);
    lemma_chain(first, second, None);
    lemma_chain(chain(first, second), third, None);
    lemma_alike(
        chain(chain(first, second), third),
        comment(parent, item, kind, relationship),
        None,
    );
}

spec fn comments(
    parent: Seq<char>,
    list: Seq<Comment>,
    kind: Seq<char>,
    relationship: Seq<char>,
    upto: nat,
) -> Step {
    |g: GraphView| g.with_comments(parent, list, kind, relationship, upto)
}

proof fn lemma_comments(
    parent: Seq<char>,
    list: Seq<Comment>,
    kind: Seq<char>,
    relationship: Seq<char>,
    upto: nat,
)
    ensures
        tame(comments(parent, list, kind, relationship, upto), None),
    decreases upto,
{
    let whole = comments(parent, list, kind, relationship, upto);
    if upto == 0 {
        lemma_same();
        lemma_alike(same(), whole, None);
    } else {
        let before = comments(parent, list, kind, relationship, (upto - 1) as nat);
        let last = comment(parent, list[upto - 1], kind, relationship);
        lemma_comments(parent, list, kind, relationship, (upto - 1) as nat);
        lemma_comment(parent, list[upto - 1], kind, relationship);
        lemma_chain(before, last, None);
        lemma_alike(chain(before, last), whole, None);
    }
}

spec fn review(key: Seq<char>, number: i64, item: Review) -> Step {
    |g: GraphView| g.with_review(key, number, item)
}

proof fn lemma_review(key: Seq<char>, number: i64, item: Review)
    ensures
        tame(review(key, number, item), None),
{
    let at = "review:"@ + item.id@;
    let record = github_model::review_view(item);
    let stated = seq![github_model::text_field("state"@, item.state@)];
    let line = item.state@ + " review of pull request #"@ + github_model::num(number) + ": "@
        + fields::summary(item.body_text@);
    let first = node(at, record, 3);
    let second = edge(at, key, "REVIEWS"@, stated, line);
    let third = author(item.author, at, "pull request review"@);
    lemma_plain();
    lemma_node(at, record, 3);
    lemma_edge(at, key, "REVIEWS"@, stated, line);
    lemma_author(item.author, at, "pull request review"@);
    lemma_chain(first, second, None);
    lemma_chain(chain(first, second), third, None);
    lemma_alike(chain(chain(first, second), third), review(key, number, item), None);
}

spec fn reviews(key: Seq<char>, number: i64, list: Seq<Review>, upto: nat) -> Step {
    |g: GraphView| g.with_reviews(key, number, list, upto)
}

proof fn lemma_reviews(key: Seq<char>, number: i64, list: Seq<Review>, upto: nat)
    ensures
        tame(reviews(key, number, list, upto), None),
    decreases upto,
{
    let whole = reviews(key, number, list, upto);
    if upto == 0 {
        lemma_same();
        lemma_alike(same(), whole, None);
    } else {
        let before = reviews(key, number, list, (upto - 1) as nat);
        let last = review(key, number, list[upto - 1]);
        lemma_reviews(key, number, list, (upto - 1) as nat);
        lemma_review(key, number, list[upto - 1]);
        lemma_chain(before, last, None);
        lemma_alike(chain(before, last), whole, None);
    }
}

spec fn commit(key: Seq<char>, number: i64, item: Commit, complete: bool) -> Step {
    |g: GraphView| g.with_commit(key, number, item, complete)
}

proof fn lemma_commit(key: Seq<char>, number: i64, item: Commit, complete: bool)
    ensures
        tame(commit(key, number, item, complete), None),
{
    let whole = commit(key, number, item, complete);
    let at = "commit:"@ + item.oid@;
    let record = github_model::commit_view(item);
    let rank: u8 = if complete {
        3
    } else {
        1
    };
    let line = "Pull request #"@ + github_model::num(number) + " includes commit "@ + fields::short(
        item.oid@,
    ) + ": "@ + item.message_headline@;
    let first = node(at, record, rank);
    let second = edge(key, at, "HAS_COMMIT"@, Seq::empty(), line);
    lemma_plain();
    lemma_node(at, record, rank);
    lemma_edge(key, at, "HAS_COMMIT"@, Seq::empty(), line);
    lemma_chain(first, second, None);
    match item.author {
        None => {
            lemma_alike(chain(first, second), whole, None);
        },
        Some(by) => {
            let what = "commit "@ + fields::short(item.oid@);
            let third = author(by.user, at, what);
            lemma_author(by.user, at, what);
            lemma_chain(chain(first, second), third, None);
            lemma_alike(chain(chain(first, second), third), whole, None);
        },
    }
}

spec fn commits(key: Seq<char>, number: i64, list: Seq<PullRequestCommit>, upto: nat) -> Step {
    |g: GraphView| g.with_commits(key, number, list, upto)
}

proof fn lemma_commits(key: Seq<char>, number: i64, list: Seq<PullRequestCommit>, upto: nat)
    ensures
        tame(commits(key, number, list, upto), None),
    decreases upto,
{
    let whole = commits(key, number, list, upto);
    if upto == 0 {
        lemma_same();
        lemma_alike(same(), whole, None);
    } else {
        let before = commits(key, number, list, (upto - 1) as nat);
        let last = commit(key, number, list[upto - 1].commit, true);
        lemma_commits(key, number, list, (upto - 1) as nat);
        lemma_commit(key, number, list[upto - 1].commit, true);
        lemma_chain(before, last, None);
        lemma_alike(chain(before, last), whole, None);
    }
}

spec fn file(repository_key: Seq<char>, key: Seq<char>, number: i64, item: ChangedFile) -> Step {
    |g: GraphView| g.with_file(repository_key, key, number, item)
}

proof fn lemma_file(repository_key: Seq<char>, key: Seq<char>, number: i64, item: ChangedFile)
    ensures
        tame(file(repository_key, key, number, item), None),
{
    let at = "file:"@ + item.path@;
    let record = engineering::node_of(
        "File"@,
        seq![github_model::text_field("path"@, item.path@)],
        seq!["Repository file path "@ + item.path@],
        item.path@,
    );
    let holds = "Repository contains file "@ + item.path@;
    let changed = seq![
        github_model::int_field("additions"@, item.additions),
        github_model::int_field("deletions"@, item.deletions),
        github_model::text_field("change_type"@, item.change_type@),
    ];
    let line = "Pull request #"@ + github_model::num(number) + " "@ + text::spec_lowercase(
        item.change_type@,
    ) + " file "@ + item.path@ + (" with "@ + github_model::num(item.additions)
        + " additions and "@ + github_model::num(item.deletions) + " deletions"@);
    let first = node(at, record, 2);
    let second = edge(repository_key, at, "CONTAINS_FILE"@, Seq::empty(), holds);
    let third = edge(key, at, "CHANGES"@, changed, line);
    lemma_plain();
    lemma_node(at, record, 2);
    lemma_edge(repository_key, at, "CONTAINS_FILE"@, Seq::empty(), holds);
    lemma_edge(key, at, "CHANGES"@, changed, line);
    lemma_chain(first, second, None);
    lemma_chain(chain(first, second), third, None);
    lemma_alike(chain(chain(first, second), third), file(repository_key, key, number, item), None);
}

spec fn files(
    repository_key: Seq<char>,
    key: Seq<char>,
    number: i64,
    list: Seq<ChangedFile>,
    upto: nat,
) -> Step {
    |g: GraphView| g.with_files(repository_key, key, number, list, upto)
}

proof fn lemma_files(
    repository_key: Seq<char>,
    key: Seq<char>,
    number: i64,
    list: Seq<ChangedFile>,
    upto: nat,
)
    ensures
        tame(files(repository_key, key, number, list, upto), None),
    decreases upto,
{
    let whole = files(repository_key, key, number, list, upto);
    if upto == 0 {
        lemma_same();
        lemma_alike(same(), whole, None);
    } else {
        let before = files(repository_key, key, number, list, (upto - 1) as nat);
        let last = file(repository_key, key, number, list[upto - 1]);
        lemma_files(repository_key, key, number, list, (upto - 1) as nat);
        lemma_file(repository_key, key, number, list[upto - 1]);
        lemma_chain(before, last, None);
        lemma_alike(chain(before, last), whole, None);
    }
}

/// Whether no property holds a truth value.
spec fn flagless(properties: Seq<(Seq<char>, ValueView)>) -> bool {
    forall|i: int| 0 <= i < properties.len() ==> !((#[trigger] properties[i]).1 is Bool)
}

proof fn lemma_pull_request_details(pull_request: PullRequest, complete: bool)
    ensures
        details(github_items::pull_request_view(pull_request, complete), complete),
{
    let content = github_items::content_view(github_items::pull_request_content(pull_request));
    assert(flagless(content));
    let base = github_items::pull_request_base(pull_request, complete);
    let whole = github_items::pull_request_view(pull_request, complete).properties;
    let joined = content + base;
    reveal_strlit("detail_complete");
    reveal_strlit("draft");
    reveal_strlit("merged");
    assert("draft"@.len() != "detail_complete"@.len());
    assert("merged"@.len() != "detail_complete"@.len());
    let said = github_model::bool_field("detail_complete"@, complete);
    assert(joined[content.len() as int] == base[0]);
    assert(base[0] == said);
    assert(whole[content.len() as int] == said);
    assert forall|b: bool|
        #[trigger] whole.contains(github_model::bool_field("detail_complete"@, b)) implies b
        == complete by {
        let i = choose|i: int|
            0 <= i < whole.len() && whole[i] == github_model::bool_field("detail_complete"@, b);
        assert(i < joined.len());
        assert(whole[i] == joined[i]);
        if i < content.len() {
            assert(joined[i] == content[i]);
        } else {
            let k = i - content.len();
            assert(joined[i] == base[k]);
            assert(base[1].0 == "draft"@);
            assert(base[2].0 == "merged"@);
            assert(k == 0);
        }
    }
}

spec fn issue_alone(repository_key: Seq<char>, issue: Issue, complete: bool) -> Step {
    |g: GraphView| g.with_issue_alone(repository_key, issue, complete)
}

proof fn lemma_issue_alone(repository_key: Seq<char>, issue: Issue, complete: bool)
    ensures
        tame(issue_alone(repository_key, issue, complete), None),
{
    reveal(GraphView::with_issue_alone);
    let key = "issue:"@ + issue.id@;
    let what = "issue #"@ + github_model::num(issue.number);
    let record = github_items::issue_view(issue, complete);
    let rank = github_items::detail_rank(complete);
    let line = "Repository contains GitHub issue #"@ + github_model::num(issue.number) + ": "@
        + issue.title@;
    let list = issue.assignees.nodes@;
    let said = issue.comments.nodes@;
    let a = node(key, record, rank);
    let b = edge(repository_key, key, "HAS_ISSUE"@, Seq::empty(), line);
    let c = author(issue.author, key, what);
    let d = taxonomy(repository_key, key, issue.labels.nodes@, issue.milestone);
    let e = assignees(key, list, what, list.len());
    let f = comments(key, said, "IssueComment"@, "COMMENTS_ON"@, said.len());
    lemma_plain();
    lemma_node(key, record, rank);
    lemma_edge(repository_key, key, "HAS_ISSUE"@, Seq::empty(), line);
    lemma_author(issue.author, key, what);
    lemma_taxonomy(repository_key, key, issue.labels.nodes@, issue.milestone);
    lemma_assignees(key, list, what, list.len());
    lemma_comments(key, said, "IssueComment"@, "COMMENTS_ON"@, said.len());
    let ab = chain(a, b);
    let abc = chain(ab, c);
    let abcd = chain(abc, d);
    let abcde = chain(abcd, e);
    lemma_chain(a, b, None);
    lemma_chain(ab, c, None);
    lemma_chain(abc, d, None);
    lemma_chain(abcd, e, None);
    lemma_chain(abcde, f, None);
    lemma_alike(chain(abcde, f), issue_alone(repository_key, issue, complete), None);
}

spec fn pull_request_alone(repository_key: Seq<char>, item: PullRequest, complete: bool) -> Step {
    |g: GraphView| g.with_pull_request_alone(repository_key, item, complete)
}

/// The key of a pull request that is reported, if it is completely.
spec fn raised_by(item: PullRequest, complete: bool) -> Option<Seq<char>> {
    if complete {
        Some("pull-request:"@ + item.id@)
    } else {
        None
    }
}

proof fn lemma_pull_request_alone(repository_key: Seq<char>, item: PullRequest, complete: bool)
    ensures
        tame(pull_request_alone(repository_key, item, complete), raised_by(item, complete)),
        forall|g: GraphView|
            g.wf() ==> grown(
                g.with_node(
                    "pull-request:"@ + item.id@,
                    github_items::pull_request_view(item, complete),
                    github_items::detail_rank(complete),
                ),
                #[trigger] g.with_pull_request_alone(repository_key, item, complete),
            ),
{
    reveal(GraphView::with_pull_request_alone);
    let raised = raised_by(item, complete);
    let key = "pull-request:"@ + item.id@;
    let what = "pull request #"@ + github_model::num(item.number);
    let record = github_items::pull_request_view(item, complete);
    let rank = github_items::detail_rank(complete);
    let line = "Repository contains GitHub pull request #"@ + github_model::num(item.number) + ": "@
        + item.title@;
    let list = item.assignees.nodes@;
    let said = item.comments.nodes@;
    let judged = item.reviews.nodes@;
    let made = item.commits.nodes@;
    let touched = item.files.nodes@;
    let a = node(key, record, rank);
    let b = edge(repository_key, key, "HAS_PULL_REQUEST"@, Seq::empty(), line);
    let c = author(item.author, key, what);
    let d = taxonomy(repository_key, key, item.labels.nodes@, item.milestone);
    let e = assignees(key, list, what, list.len());
    let f = comments(key, said, "PullRequestComment"@, "COMMENTS_ON"@, said.len());
    let h = reviews(key, item.number, judged, judged.len());
    let i = commits(key, item.number, made, made.len());
    let j = files(repository_key, key, item.number, touched, touched.len());
    lemma_plain();
    lemma_pull_request_details(item, complete);
    lemma_pull_node(key, record, complete);
    lemma_edge(repository_key, key, "HAS_PULL_REQUEST"@, Seq::empty(), line);
    lemma_author(item.author, key, what);
    lemma_taxonomy(repository_key, key, item.labels.nodes@, item.milestone);
    lemma_assignees(key, list, what, list.len());
    lemma_comments(key, said, "PullRequestComment"@, "COMMENTS_ON"@, said.len());
    lemma_reviews(key, item.number, judged, judged.len());
    lemma_commits(key, item.number, made, made.len());
    lemma_files(repository_key, key, item.number, touched, touched.len());
    let bc = chain(b, c);
    let bcd = chain(bc, d);
    let bcde = chain(bcd, e);
    let spoken = chain(bcde, f);
    let reviewed = chain(spoken, h);
    let committed = chain(reviewed, i);
    let rest = chain(committed, j);
    lemma_chain(b, c, None);
    lemma_chain(bc, d, None);
    lemma_chain(bcd, e, None);
    lemma_chain(bcde, f, None);
    lemma_chain(spoken, h, None);
    lemma_chain(reviewed, i, None);
    lemma_chain(committed, j, None);
    lemma_chain(a, rest, raised);
    lemma_alike(chain(a, rest), pull_request_alone(repository_key, item, complete), raised);
    assert forall|g: GraphView| g.wf() implies grown(
        g.with_node(key, record, rank),
        #[trigger] g.with_pull_request_alone(repository_key, item, complete),
    ) by {
        let m = a(g);
        assert(grown(g, m));
        assert(grown(m, rest(m)));
        assert(rest(m) == g.with_pull_request_alone(repository_key, item, complete));
    }
}

spec fn issue(repository_key: Seq<char>, item: Issue, complete: bool) -> Step {
    |g: GraphView| g.with_issue(repository_key, item, complete)
}

spec fn closers(repository_key: Seq<char>, item: Issue, upto: int) -> Step {
    |g: GraphView| g.with_closers(repository_key, item, upto)
}

spec fn pull_request(repository_key: Seq<char>, item: PullRequest, complete: bool) -> Step {
    |g: GraphView| g.with_pull_request(repository_key, item, complete)
}

spec fn closed(repository_key: Seq<char>, item: PullRequest, upto: int) -> Step {
    |g: GraphView| g.with_closed(repository_key, item, upto)
}

/// The relationship of a closing.
spec fn closing(from: PullRequest, to: Issue) -> Step {
    edge(
        "pull-request:"@ + from.id@,
        "issue:"@ + to.id@,
        "CLOSES"@,
        Seq::empty(),
        github_items::closes_text(from.number, to.number, to.title@),
    )
}

proof fn lemma_closing(from: PullRequest, to: Issue)
    ensures
        tame(closing(from, to), None),
{
    lemma_edge(
        "pull-request:"@ + from.id@,
        "issue:"@ + to.id@,
        "CLOSES"@,
        Seq::empty(),
        github_items::closes_text(from.number, to.number, to.title@),
    );
}

proof fn lemma_issue(repository_key: Seq<char>, item: Issue, complete: bool)
    ensures
        tame(issue(repository_key, item, complete), None),
    decreases item, 1int, 0int,
{
    let count = item.closed_by_pull_requests@.len() as int;
    let alone = issue_alone(repository_key, item, complete);
    let rest = closers(repository_key, item, count);
    lemma_issue_alone(repository_key, item, complete);
    lemma_closers(repository_key, item, count);
    lemma_chain(alone, rest, None);
    lemma_alike(chain(alone, rest), issue(repository_key, item, complete), None);
}

proof fn lemma_closers(repository_key: Seq<char>, item: Issue, upto: int)
    ensures
        tame(closers(repository_key, item, upto), None),
    decreases item, 0int, upto,
{
    let whole = closers(repository_key, item, upto);
    if upto <= 0 || upto > item.closed_by_pull_requests@.len() {
        lemma_same();
        lemma_alike(same(), whole, None);
    } else {
        let by = item.closed_by_pull_requests@[upto - 1];
        assert(decreases_to!(item => item.closed_by_pull_requests@[upto - 1]));
        let before = closers(repository_key, item, upto - 1);
        let told = pull_request(repository_key, by, false);
        lemma_closers(repository_key, item, upto - 1);
        lemma_pull_request(repository_key, by, false);
        lemma_closing(by, item);
        lemma_chain(before, told, None);
        lemma_chain(chain(before, told), closing(by, item), None);
        lemma_alike(chain(chain(before, told), closing(by, item)), whole, None);
    }
}

proof fn lemma_pull_request(repository_key: Seq<char>, item: PullRequest, complete: bool)
    ensures
        tame(pull_request(repository_key, item, complete), raised_by(item, complete)),
    decreases item, 1int, 0int,
{
    let count = item.closing_issues@.len() as int;
    let raised = raised_by(item, complete);
    let alone = pull_request_alone(repository_key, item, complete);
    let rest = closed(repository_key, item, count);
    lemma_pull_request_alone(repository_key, item, complete);
    lemma_closed(repository_key, item, count);
    lemma_chain(alone, rest, raised);
    lemma_alike(chain(alone, rest), pull_request(repository_key, item, complete), raised);
}

proof fn lemma_closed(repository_key: Seq<char>, item: PullRequest, upto: int)
    ensures
        tame(closed(repository_key, item, upto), None),
    decreases item, 0int, upto,
{
    let whole = closed(repository_key, item, upto);
    if upto <= 0 || upto > item.closing_issues@.len() {
        lemma_same();
        lemma_alike(same(), whole, None);
    } else {
        let of = item.closing_issues@[upto - 1];
        assert(decreases_to!(item => item.closing_issues@[upto - 1]));
        let before = closed(repository_key, item, upto - 1);
        let told = issue(repository_key, of, false);
        lemma_closed(repository_key, item, upto - 1);
        lemma_issue(repository_key, of, false);
        lemma_closing(item, of);
        lemma_chain(before, told, None);
        lemma_chain(chain(before, told), closing(item, of), None);
        lemma_alike(chain(chain(before, told), closing(item, of)), whole, None);
    }
}

spec fn topics(repository_key: Seq<char>, name: Seq<char>, list: Seq<String>, upto: nat) -> Step {
    |g: GraphView| g.with_topics(repository_key, name, list, upto)
}

proof fn lemma_topics(repository_key: Seq<char>, name: Seq<char>, list: Seq<String>, upto: nat)
    ensures
        tame(topics(repository_key, name, list, upto), None),
    decreases upto,
{
    let whole = topics(repository_key, name, list, upto);
    if upto == 0 {
        lemma_same();
        lemma_alike(same(), whole, None);
    } else {
        let before = topics(repository_key, name, list, (upto - 1) as nat);
        lemma_topics(repository_key, name, list, (upto - 1) as nat);
        let topic = list[upto - 1]@;
        let at = "topic:"@ + text::spec_lowercase(topic);
        let record = engineering::node_of(
            "Topic"@,
            seq![github_model::text_field("name"@, topic)],
            seq!["GitHub repository topic "@ + topic],
            topic,
        );
        let line = name + " has repository topic "@ + topic;
        let first = node(at, record, 2);
        let second = edge(repository_key, at, "HAS_TOPIC"@, Seq::empty(), line);
        lemma_plain();
        lemma_node(at, record, 2);
        lemma_edge(repository_key, at, "HAS_TOPIC"@, Seq::empty(), line);
        lemma_chain(before, first, None);
        lemma_chain(chain(before, first), second, None);
        lemma_alike(chain(chain(before, first), second), whole, None);
    }
}

spec fn repository(item: Repository) -> Step {
    |g: GraphView| g.with_repository(item)
}

proof fn lemma_repository(item: Repository)
    ensures
        tame(repository(item), None),
{
    let key = "repository:"@ + item.id@;
    let record = github_model::repository_view(item);
    let list = item.repository_topics@;
    let first = node(key, record, 3);
    let rest = topics(key, item.name_with_owner@, list, list.len());
    lemma_plain();
    lemma_node(key, record, 3);
    lemma_topics(key, item.name_with_owner@, list, list.len());
    lemma_chain(first, rest, None);
    lemma_alike(chain(first, rest), repository(item), None);
}

spec fn discussed(item: Discussion, upto: nat) -> Step {
    |g: GraphView| g.with_discussed(item, upto)
}

proof fn lemma_discussed(item: Discussion, upto: nat)
    ensures
        tame(discussed(item, upto), None),
    decreases upto,
{
    let whole = discussed(item, upto);
    if upto == 0 {
        lemma_same();
        lemma_alike(same(), whole, None);
    } else {
        let before = discussed(item, (upto - 1) as nat);
        lemma_discussed(item, (upto - 1) as nat);
        let said = item.comments.nodes@[upto - 1];
        let parent = "discussion:"@ + item.id@;
        let how = github_items::discussion_relationship(item, said);
        let answers = said.replies@;
        let at = "comment:"@ + said.id@;
        let first = comment(parent, said, "DiscussionComment"@, how);
        let second = comments(at, answers, "DiscussionReply"@, "REPLIES_TO"@, answers.len());
        lemma_comment(parent, said, "DiscussionComment"@, how);
        lemma_comments(at, answers, "DiscussionReply"@, "REPLIES_TO"@, answers.len());
        lemma_chain(before, first, None);
        lemma_chain(chain(before, first), second, None);
        lemma_alike(chain(chain(before, first), second), whole, None);
    }
}

spec fn discussion(repository_key: Seq<char>, item: Discussion) -> Step {
    |g: GraphView| g.with_discussion(repository_key, item)
}

proof fn lemma_discussion(repository_key: Seq<char>, item: Discussion)
    ensures
        tame(discussion(repository_key, item), None),
{
    let key = "discussion:"@ + item.id@;
    let number = github_model::num(item.number);
    let category = item.category;
    let at = "discussion-category:"@ + category.id@;
    let has = "Repository contains GitHub discussion #"@ + number + ": "@ + item.title@;
    let offers = "Repository has GitHub discussion category "@ + category.name@;
    let is_in = "Discussion #"@ + number + " is in category "@ + category.name@;
    let said = item.comments.nodes@;
    let a = node(key, github_items::discussion_view(item), 3);
    let b = edge(repository_key, key, "HAS_DISCUSSION"@, Seq::empty(), has);
    let c = author(item.author, key, "discussion #"@ + number);
    let d = node(at, github_items::category_view(category), 2);
    let e = edge(repository_key, at, "HAS_DISCUSSION_CATEGORY"@, Seq::empty(), offers);
    let f = edge(key, at, "IN_CATEGORY"@, Seq::empty(), is_in);
    let rest = discussed(item, said.len());
    lemma_plain();
    lemma_node(key, github_items::discussion_view(item), 3);
    lemma_edge(repository_key, key, "HAS_DISCUSSION"@, Seq::empty(), has);
    lemma_author(item.author, key, "discussion #"@ + number);
    lemma_node(at, github_items::category_view(category), 2);
    lemma_edge(repository_key, at, "HAS_DISCUSSION_CATEGORY"@, Seq::empty(), offers);
    lemma_edge(key, at, "IN_CATEGORY"@, Seq::empty(), is_in);
    lemma_discussed(item, said.len());
    let ab = chain(a, b);
    let abc = chain(ab, c);
    let abcd = chain(abc, d);
    let abcde = chain(abcd, e);
    let alone = chain(abcde, f);
    lemma_chain(a, b, None);
    lemma_chain(ab, c, None);
    lemma_chain(abc, d, None);
    lemma_chain(abcd, e, None);
    lemma_chain(abcde, f, None);
    lemma_chain(alone, rest, None);
    lemma_alike(chain(alone, rest), discussion(repository_key, item), None);
}

spec fn release(repository_key: Seq<char>, item: Release) -> Step {
    |g: GraphView| g.with_release(repository_key, item)
}

proof fn lemma_release(repository_key: Seq<char>, item: Release)
    ensures
        tame(release(repository_key, item), None),
{
    let whole = release(repository_key, item);
    let key = "release:"@ + item.id@;
    let name = github_items::release_name(item);
    let line = "Repository published GitHub release "@ + name;
    let a = node(key, github_items::release_view(item), 3);
    let b = edge(repository_key, key, "PUBLISHED_RELEASE"@, Seq::empty(), line);
    let c = author(item.author, key, "release "@ + name);
    lemma_plain();
    lemma_node(key, github_items::release_view(item), 3);
    lemma_edge(repository_key, key, "PUBLISHED_RELEASE"@, Seq::empty(), line);
    lemma_author(item.author, key, "release "@ + name);
    let ab = chain(a, b);
    let abc = chain(ab, c);
    lemma_chain(a, b, None);
    lemma_chain(ab, c, None);
    match item.tag_commit {
        None => {
            lemma_alike(abc, whole, None);
        },
        Some(tagged) => {
            let at = "commit:"@ + tagged.oid@;
            let points = "Release "@ + name + " points to Git commit "@ + tagged.oid@;
            let d = node(at, github_items::tag_commit_view(tagged), 1);
            let e = edge(key, at, "POINTS_TO"@, Seq::empty(), points);
            lemma_node(at, github_items::tag_commit_view(tagged), 1);
            lemma_edge(key, at, "POINTS_TO"@, Seq::empty(), points);
            lemma_chain(abc, d, None);
            lemma_chain(chain(abc, d), e, None);
            lemma_alike(chain(chain(abc, d), e), whole, None);
        },
    }
}

spec fn addition_step(addition: Addition) -> Step {
    |g: GraphView| g.with_addition(addition)
}

/// The key of the pull request that an addition reports completely.
spec fn raised_in(addition: Addition) -> Option<Seq<char>> {
    match addition {
        Addition::PullRequest { pull_request, complete, .. } => raised_by(pull_request, complete),
        _ => None,
    }
}

proof fn lemma_addition(addition: Addition)
    ensures
        tame(addition_step(addition), raised_in(addition)),
{
    let whole = addition_step(addition);
    match addition {
        Addition::Repository { repository: item } => {
            lemma_repository(item);
            lemma_alike(repository(item), whole, None);
        },
        Addition::Issue { repository_key, issue: item, complete } => {
            lemma_issue(repository_key, item, complete);
            lemma_alike(issue(repository_key, item, complete), whole, None);
        },
        Addition::PullRequest { repository_key, pull_request: item, complete } => {
            lemma_pull_request(repository_key, item, complete);
            lemma_alike(
                pull_request(repository_key, item, complete),
                whole,
                raised_by(item, complete),
            );
        },
        Addition::Discussion { repository_key, discussion: item } => {
            lemma_discussion(repository_key, item);
            lemma_alike(discussion(repository_key, item), whole, None);
        },
        Addition::Release { repository_key, release: item } => {
            lemma_release(repository_key, item);
            lemma_alike(release(repository_key, item), whole, None);
        },
        Addition::Actor { actor } => {
            lemma_plain();
            lemma_node(github_model::actor_key(actor), user_view(actor), 2);
            lemma_alike(
                node(github_model::actor_key(actor), user_view(actor), 2),
                whole,
                None,
            );
        },
        Addition::Author { actor, target_key, summary } => {
            lemma_author(actor, target_key, summary);
            lemma_alike(author(actor, target_key, summary), whole, None);
        },
        Addition::Assignees { target_key, assignees: list, summary } => {
            lemma_assignees(target_key, list, summary, list.len());
            lemma_alike(assignees(target_key, list, summary, list.len()), whole, None);
        },
        Addition::Taxonomy { repository_key, target_key, labels: list, milestone } => {
            lemma_taxonomy(repository_key, target_key, list, milestone);
            lemma_alike(taxonomy(repository_key, target_key, list, milestone), whole, None);
        },
        Addition::Comment { parent_key, comment: item, kind, relationship } => {
            lemma_comment(parent_key, item, kind, relationship);
            lemma_alike(comment(parent_key, item, kind, relationship), whole, None);
        },
        Addition::Review { pull_request_key, number, review: item } => {
            lemma_review(pull_request_key, number, item);
            lemma_alike(review(pull_request_key, number, item), whole, None);
        },
        Addition::Commit { pull_request_key, number, commit: item, complete } => {
            lemma_commit(pull_request_key, number, item, complete);
            lemma_alike(commit(pull_request_key, number, item, complete), whole, None);
        },
        Addition::File { repository_key, pull_request_key, number, file: item } => {
            lemma_file(repository_key, pull_request_key, number, item);
            lemma_alike(file(repository_key, pull_request_key, number, item), whole, None);
        },
    }
}

/// No addition loses a node or a relationship, and the same addition a second
/// time changes nothing.
pub proof fn law_additions_lose_and_repeat_nothing(g: GraphView, addition: Addition)
    requires
        g.wf(),
    ensures
        grown(g, g.with_addition(addition)),
        g.with_addition(addition).with_addition(addition) == g.with_addition(addition),
{
    lemma_addition(addition);
    let f = addition_step(addition);
    let n = f(g);
    assert(grown(g, n));
    assert(grown(n, n));
    assert(f(n) == n);
}

/// Adding an issue loses no key and no relationship and leaves every end of a
/// relationship in the graph; adding it a second time changes nothing.
pub proof fn law_issue_is_added_once(
    g: GraphView,
    repository_key: Seq<char>,
    issue: Issue,
    complete: bool,
)
    requires
        g.wf(),
        g.closed(),
        g.keys.contains(repository_key),
    ensures
        ({
            let once = g.with_issue(repository_key, issue, complete);
            &&& once.closed()
            &&& grown(g, once)
            &&& forall|key: Seq<char>| g.keys.contains(key) ==> #[trigger] once.keys.contains(key)
            &&& forall|i: int|
                0 <= i < g.edges.len() ==> once.edges.contains(#[trigger] g.edges[i])
            &&& once.with_issue(repository_key, issue, complete) == once
        }),
{
    let addition = Addition::Issue { repository_key, issue, complete };
    let once = g.with_issue(repository_key, issue, complete);
    assert(once == g.with_addition(addition));
    law_additions_lose_and_repeat_nothing(g, addition);
    github_laws::law_issue_is_linked(g, repository_key, issue, complete);
    assert forall|i: int| 0 <= i < g.edges.len() implies once.edges.contains(
        #[trigger] g.edges[i],
    ) by {
        assert(once.edges[i] == g.edges[i]);
    }
}

/// The same for a pull request.
pub proof fn law_pull_request_is_added_once(
    g: GraphView,
    repository_key: Seq<char>,
    pull_request: PullRequest,
    complete: bool,
)
    requires
        g.wf(),
        g.closed(),
        g.keys.contains(repository_key),
    ensures
        ({
            let once = g.with_pull_request(repository_key, pull_request, complete);
            &&& once.closed()
            &&& grown(g, once)
            &&& forall|key: Seq<char>| g.keys.contains(key) ==> #[trigger] once.keys.contains(key)
            &&& forall|i: int|
                0 <= i < g.edges.len() ==> once.edges.contains(#[trigger] g.edges[i])
            &&& once.with_pull_request(repository_key, pull_request, complete) == once
        }),
{
    let addition = Addition::PullRequest { repository_key, pull_request, complete };
    let once = g.with_pull_request(repository_key, pull_request, complete);
    assert(once == g.with_addition(addition));
    law_additions_lose_and_repeat_nothing(g, addition);
    github_laws::law_pull_request_is_linked(g, repository_key, pull_request, complete);
    assert forall|i: int| 0 <= i < g.edges.len() implies once.edges.contains(
        #[trigger] g.edges[i],
    ) by {
        assert(once.edges[i] == g.edges[i]);
    }
}

/// A graph that additions built is well formed, and has grown from what the
/// first of them built.
proof fn lemma_built(additions: Seq<Addition>, upto: int)
    requires
        0 <= upto <= additions.len(),
    ensures
        built(additions).wf(),
        grown(built(additions.take(upto)), built(additions)),
    decreases additions.len(),
{
    if additions.len() == 0 {
        assert(additions.take(upto) =~= additions);
    } else {
        let shorter = additions.drop_last();
        let g = built(shorter);
        lemma_built(shorter, shorter.len() as int);
        lemma_addition(additions.last());
        let f = addition_step(additions.last());
        assert(grown(g, f(g)));
        if upto < additions.len() {
            lemma_built(shorter, upto);
            assert(shorter.take(upto) =~= additions.take(upto));
            lemma_grown(built(additions.take(upto)), g, built(additions));
        } else {
            assert(additions.take(upto) =~= additions);
        }
    }
}

/// Adding again what was added before changes nothing, whatever came between.
pub proof fn law_known_additions_change_nothing(additions: Seq<Addition>, i: int)
    requires
        0 <= i < additions.len(),
    ensures
        built(additions).with_addition(additions[i]) == built(additions),
{
    let first = additions.take(i + 1);
    lemma_built(additions, i + 1);
    lemma_built(additions.take(i), 0);
    assert(first.drop_last() =~= additions.take(i));
    assert(first.last() == additions[i]);
    lemma_addition(additions[i]);
    let f = addition_step(additions[i]);
    assert(f(built(additions.take(i))) == built(first));
    assert(f(built(additions)) == built(additions));
}

proof fn lemma_history(additions: Seq<Addition>)
    ensures
        detailed(built(additions)),
        forall|id: Seq<char>|
            #[trigger] complete_at(built(additions), "pull-request:"@ + id) <==> reported(
                additions,
                id,
            ),
    decreases additions.len(),
{
    if additions.len() > 0 {
        let shorter = additions.drop_last();
        let last = additions.last();
        let before = built(shorter);
        let after = built(additions);
        lemma_history(shorter);
        lemma_built(shorter, 0);
        lemma_addition(last);
        let f = addition_step(last);
        assert(keeps(before, f(before), raised_in(last)));
        lemma_plain();
        assert forall|id: Seq<char>|
            #[trigger] complete_at(after, "pull-request:"@ + id) <==> reported(additions, id) by {
            let key = "pull-request:"@ + id;
            assert(pull(key));
            assert(complete_at(after, key) <==> complete_at(before, key) || raised_in(last) == Some(
                key,
            ));
            assert((raised_in(last) == Some(key)) == completes(last, id)) by {
                if raised_in(last) == Some(key) {
                    let item = last->pull_request;
                    let prefix = "pull-request:"@;
                    assert(prefix + item.id@ == prefix + id);
                    assert((prefix + item.id@).subrange(
                        prefix.len() as int,
                        (prefix + item.id@).len() as int,
                    ) =~= item.id@);
                    assert((prefix + id).subrange(prefix.len() as int, (prefix + id).len() as int)
                        =~= id);
                }
            }
            if reported(shorter, id) {
                let i = choose|i: int|
                    0 <= i < shorter.len() && completes(#[trigger] shorter[i], id);
                assert(additions[i] == shorter[i]);
            }
            if reported(additions, id) {
                let i = choose|i: int|
                    0 <= i < additions.len() && completes(#[trigger] additions[i], id);
                if i < shorter.len() {
                    assert(shorter[i] == additions[i]);
                }
            }
            if completes(last, id) {
                assert(completes(additions[additions.len() - 1], id));
            }
        }
    }
}

/// A pull request that was added says that its details are complete exactly
/// where one of the additions was a complete report of it, in whatever order
/// they came and whoever else told of it.
pub proof fn law_details_are_complete_where_reported(additions: Seq<Addition>, id: Seq<char>)
    ensures
        ({
            let g = built(additions);
            let key = "pull-request:"@ + id;
            g.keys.contains(key) ==> details(g.nodes[g.slot(key)], reported(additions, id))
        }),
        (exists|i: int|
            0 <= i < additions.len() && ((#[trigger] additions[i]) matches Addition::PullRequest {
                pull_request,
                ..
            } && pull_request.id@ == id)) ==> built(additions).keys.contains(
            "pull-request:"@ + id,
        ),
{
    let g = built(additions);
    let key = "pull-request:"@ + id;
    lemma_history(additions);
    lemma_built(additions, 0);
    lemma_plain();
    if g.keys.contains(key) {
        let i = g.keys.index_of(key);
        assert(g.keys[i] == key);
        assert(pull(g.keys[i]));
        if complete_at(g, key) {
            let j = choose|j: int|
                0 <= j < g.keys.len() && #[trigger] g.keys[j] == key && g.ranks[j] == 3;
            assert(i == j);
        }
        assert(complete_at(g, key) <==> g.ranks[i] == 3);
    }
    if exists|i: int|
        0 <= i < additions.len() && ((#[trigger] additions[i]) matches Addition::PullRequest {
            pull_request,
            ..
        } && pull_request.id@ == id) {
        let i = choose|i: int|
            0 <= i < additions.len() && ((#[trigger] additions[i]) matches Addition::PullRequest {
                pull_request,
                ..
            } && pull_request.id@ == id);
        let item = additions[i]->pull_request;
        law_known_additions_change_nothing(additions, i);
        lemma_pull_request_named(
            g,
            additions[i]->PullRequest_repository_key,
            item,
            additions[i]->PullRequest_complete,
        );
    }
}

proof fn lemma_pull_request_named(
    g: GraphView,
    repository_key: Seq<char>,
    item: PullRequest,
    complete: bool,
)
    requires
        g.wf(),
    ensures
        g.with_pull_request(repository_key, item, complete).keys.contains(
            "pull-request:"@ + item.id@,
        ),
{
    let key = "pull-request:"@ + item.id@;
    let record = github_items::pull_request_view(item, complete);
    let rank = github_items::detail_rank(complete);
    let count = item.closing_issues@.len() as int;
    let first = g.with_node(key, record, rank);
    let alone = g.with_pull_request_alone(repository_key, item, complete);
    lemma_node_grows(g, key, record, rank);
    lemma_pull_request_alone(repository_key, item, complete);
    lemma_closed(repository_key, item, count);
    let rest = closed(repository_key, item, count);
    assert(grown(first, alone));
    assert(grown(alone, rest(alone)));
    lemma_grown(first, alone, rest(alone));
    let i = first.keys.index_of(key);
    assert(first.keys[i] == key);
    assert(rest(alone).keys[i] == key);
}

/// The issues that a pull request tells of are joined to it.
proof fn lemma_closed_links(
    g: GraphView,
    repository_key: Seq<char>,
    item: PullRequest,
    upto: int,
    k: int,
)
    requires
        g.wf(),
        0 <= k < upto <= item.closing_issues@.len(),
    ensures
        g.with_closed(repository_key, item, upto).links(
            "pull-request:"@ + item.id@,
            "issue:"@ + item.closing_issues@[k].id@,
            "CLOSES"@,
        ),
    decreases upto,
{
    let of = item.closing_issues@[upto - 1];
    let source = "pull-request:"@ + item.id@;
    let before = closed(repository_key, item, upto - 1);
    let told = issue(repository_key, of, false);
    let last = closing(item, of);
    lemma_closed(repository_key, item, upto - 1);
    lemma_issue(repository_key, of, false);
    lemma_closing(item, of);
    let a = before(g);
    let b = told(a);
    let c = last(b);
    assert(grown(g, a));
    assert(grown(a, b));
    assert(grown(b, c));
    assert(c == g.with_closed(repository_key, item, upto));
    if k == upto - 1 {
        lemma_edge_links(
            b,
            source,
            "issue:"@ + of.id@,
            "CLOSES"@,
            Seq::empty(),
            github_items::closes_text(item.number, of.number, of.title@),
        );
    } else {
        lemma_closed_links(g, repository_key, item, upto - 1, k);
        lemma_grown(a, b, c);
        lemma_links_stay(a, c, source, "issue:"@ + item.closing_issues@[k].id@, "CLOSES"@);
    }
}

/// The pull requests that an issue tells of are joined to it.
proof fn lemma_closers_links(
    g: GraphView,
    repository_key: Seq<char>,
    item: Issue,
    upto: int,
    k: int,
)
    requires
        g.wf(),
        0 <= k < upto <= item.closed_by_pull_requests@.len(),
    ensures
        g.with_closers(repository_key, item, upto).links(
            "pull-request:"@ + item.closed_by_pull_requests@[k].id@,
            "issue:"@ + item.id@,
            "CLOSES"@,
        ),
    decreases upto,
{
    let by = item.closed_by_pull_requests@[upto - 1];
    let target = "issue:"@ + item.id@;
    let before = closers(repository_key, item, upto - 1);
    let told = pull_request(repository_key, by, false);
    let last = closing(by, item);
    lemma_closers(repository_key, item, upto - 1);
    lemma_pull_request(repository_key, by, false);
    lemma_closing(by, item);
    let a = before(g);
    let b = told(a);
    let c = last(b);
    assert(grown(g, a));
    assert(grown(a, b));
    assert(grown(b, c));
    assert(c == g.with_closers(repository_key, item, upto));
    if k == upto - 1 {
        lemma_edge_links(
            b,
            "pull-request:"@ + by.id@,
            target,
            "CLOSES"@,
            Seq::empty(),
            github_items::closes_text(by.number, item.number, item.title@),
        );
    } else {
        lemma_closers_links(g, repository_key, item, upto - 1, k);
        lemma_grown(a, b, c);
        lemma_links_stay(
            a,
            c,
            "pull-request:"@ + item.closed_by_pull_requests@[k].id@,
            target,
            "CLOSES"@,
        );
    }
}

proof fn lemma_told(g: GraphView, addition: Addition, pull_request_id: Seq<char>, issue_id: Seq<char>)
    requires
        g.wf(),
        tells(addition, pull_request_id, issue_id),
    ensures
        g.with_addition(addition).links(
            "pull-request:"@ + pull_request_id,
            "issue:"@ + issue_id,
            "CLOSES"@,
        ),
{
    match addition {
        Addition::PullRequest { repository_key, pull_request: item, complete } => {
            let k = choose|k: int|
                0 <= k < item.closing_issues@.len() && (#[trigger] item.closing_issues@[k]).id@
                    == issue_id;
            lemma_pull_request_alone(repository_key, item, complete);
            let f = pull_request_alone(repository_key, item, complete);
            assert(grown(g, f(g)));
            lemma_closed_links(f(g), repository_key, item, item.closing_issues@.len() as int, k);
        },
        Addition::Issue { repository_key, issue: item, complete } => {
            let k = choose|k: int|
                0 <= k < item.closed_by_pull_requests@.len() && (
                #[trigger] item.closed_by_pull_requests@[k]).id@ == pull_request_id;
            lemma_issue_alone(repository_key, item, complete);
            let f = issue_alone(repository_key, item, complete);
            assert(grown(g, f(g)));
            lemma_closers_links(
                f(g),
                repository_key,
                item,
                item.closed_by_pull_requests@.len() as int,
                k,
            );
        },
        _ => {},
    }
}

/// A closing that one or more of the additions tell of, as the pull request or
/// as the issue, is listed exactly once.
pub proof fn law_closing_is_listed_once(
    additions: Seq<Addition>,
    pull_request_id: Seq<char>,
    issue_id: Seq<char>,
)
    requires
        exists|i: int|
            0 <= i < additions.len() && tells(
                #[trigger] additions[i],
                pull_request_id,
                issue_id,
            ),
    ensures
        listed_once(
            built(additions),
            "pull-request:"@ + pull_request_id,
            "issue:"@ + issue_id,
            "CLOSES"@,
        ),
{
    let i = choose|i: int|
        0 <= i < additions.len() && tells(#[trigger] additions[i], pull_request_id, issue_id);
    let g = built(additions);
    lemma_built(additions, 0);
    law_known_additions_change_nothing(additions, i);
    lemma_told(g, additions[i], pull_request_id, issue_id);
    let source = "pull-request:"@ + pull_request_id;
    let target = "issue:"@ + issue_id;
    assert forall|a: int, b: int|
        0 <= a < g.edges.len() && 0 <= b < g.edges.len() && engineering::same_link(
            #[trigger] g.edges[a],
            source,
            target,
            "CLOSES"@,
        ) && engineering::same_link(#[trigger] g.edges[b], source, target, "CLOSES"@) implies a
        == b by {
        if a < b {
            assert(!engineering::same_link(
                g.edges[a],
                g.edges[b].source,
                g.edges[b].target,
                g.edges[b].label,
            ));
        } else if b < a {
            assert(!engineering::same_link(
                g.edges[b],
                g.edges[a].source,
                g.edges[a].target,
                g.edges[a].label,
            ));
        }
    }
}

} // verus!
