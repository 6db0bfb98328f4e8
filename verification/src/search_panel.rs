//! What the studio shows of a search.

use vstd::prelude::*;
use vstd::string::*;

use crate::digits;
use crate::digits::usize_text;
use crate::search;
use crate::search::{SearchHit, SearchMode, SearchReport};
use crate::graph::ElementRef;
use crate::studio::{SearchState, Studio};
use crate::text;
use crate::text::{concat2, concat3, concat4, concat5};

verus! {

/// The mode's name in small letters.
pub open spec fn mode_word(mode: SearchMode) -> Seq<char> {
    match mode {
        SearchMode::Text => "text"@,
        SearchMode::Semantic => "semantic"@,
        SearchMode::Hybrid => "hybrid"@,
    }
}

fn lower_mode(mode: SearchMode) -> (r: &'static str)
    ensures
        r@ == mode_word(mode),
{
    match mode {
        SearchMode::Text => "text",
        SearchMode::Semantic => "semantic",
        SearchMode::Hybrid => "hybrid",
    }
}

/// The kind of an element in small letters.
pub open spec fn kind_word(element: ElementRef) -> Seq<char> {
    match element {
        ElementRef::Node(_) => "node"@,
        ElementRef::Edge(_) => "edge"@,
    }
}

fn lower_kind(element: ElementRef) -> (r: &'static str)
    ensures
        r@ == kind_word(element),
{
    match element {
        ElementRef::Node(_) => "node",
        ElementRef::Edge(_) => "edge",
    }
}

/// A result as it is listed.
#[derive(Debug)]
pub struct HitRow {
    pub element: ElementRef,
    pub selected: bool,
    pub kind: &'static str,
    pub label: String,
    pub title: String,
    pub detail: String,
    pub relevance: String,
    /// What is read out for the row.
    pub spoken: String,
    /// The strength of the text signal, shown on the selected row.
    pub text_signal: Option<u32>,
    /// The strength of the vector signal, shown on the selected row.
    pub vector_signal: Option<u32>,
}

/// The contents of a listed result.
pub struct HitRowView {
    pub element: ElementRef,
    pub selected: bool,
    pub kind: Seq<char>,
    pub label: Seq<char>,
    pub title: Seq<char>,
    pub detail: Seq<char>,
    pub relevance: Seq<char>,
    pub spoken: Seq<char>,
    pub text_signal: Option<u32>,
    pub vector_signal: Option<u32>,
}

impl View for HitRow {
    type V = HitRowView;

    open spec fn view(&self) -> HitRowView {
        HitRowView {
            element: self.element,
            selected: self.selected,
            kind: self.kind@,
            label: self.label@,
            title: self.title@,
            detail: self.detail@,
            relevance: self.relevance@,
            spoken: self.spoken@,
            text_signal: self.text_signal,
            vector_signal: self.vector_signal,
        }
    }
}

/// The row of a result; `percent` is its score as a whole percentage.
pub open spec fn hit_row(hit: SearchHit, percent: Seq<char>, selected: bool) -> HitRowView {
    HitRowView {
        element: hit.element,
        selected,
        kind: search::kind_name(hit.element),
        label: hit.label@,
        title: hit.title@,
        detail: hit.detail@,
        relevance: percent + "%"@,
        spoken: kind_word(hit.element) + " "@ + hit.title@ + ", "@ + hit.label@ + (
        ", relevance "@ + percent + " percent"@),
        text_signal: if selected {
            hit.lexical_score
        } else {
            None
        },
        vector_signal: if selected {
            hit.semantic_score
        } else {
            None
        },
    }
}

fn make_hit_row(hit: &SearchHit, percent: &str, selected: bool) -> (r: HitRow)
    ensures
        r@ == hit_row(*hit, percent@, selected),
{
    let head = concat5(
        lower_kind(hit.element),
        " ",
        hit.title.as_str(),
        ", ",
        hit.label.as_str(),
    );
    let tail = concat3(", relevance ", percent, " percent");
    HitRow {
        element: hit.element,
        selected,
        kind: hit.kind_label(),
        label: hit.label.clone(),
        title: hit.title.clone(),
        detail: hit.detail.clone(),
        relevance: concat2(percent, "%"),
        spoken: concat2(head.as_str(), tail.as_str()),
        text_signal: if selected {
            hit.lexical_score
        } else {
            None
        },
        vector_signal: if selected {
            hit.semantic_score
        } else {
            None
        },
    }
}

/// The contents of listed results.
pub open spec fn row_views(rows: Seq<HitRow>) -> Seq<HitRowView> {
    rows.map_values(|row: HitRow| row@)
}

/// The rows of results, the marked one selected.
pub open spec fn hit_rows(hits: Seq<SearchHit>, percents: Seq<Seq<char>>, marked: usize) -> Seq<
    HitRowView,
> {
    Seq::new(hits.len(), |i: int| hit_row(hits[i], percents[i], i == marked))
}

/// What is shown of a search that has ended.
#[derive(Debug)]
pub struct ReadySearch {
    pub title: String,
    pub summary: String,
    pub model: Option<String>,
    pub warning: Option<String>,
    /// What is said when there are no results.
    pub empty: Option<&'static str>,
    pub rows: Vec<HitRow>,
}

/// Whether the panel shows a search that has ended.
pub open spec fn search_shown(
    report: SearchReport,
    percents: Seq<Seq<char>>,
    marked: usize,
    panel: ReadySearch,
) -> bool {
    &&& panel.title@ == "“"@ + report.query@ + "”"@
    &&& panel.summary@ == digits::decimal(report.hits@.len()) + " "@ + mode_word(report.mode)
        + " · "@ + (report.elapsed_ms@ + " ms"@)
    &&& text::opt_view(panel.model) == match report.embedding_model {
        Some(model) => Some("Vectors · "@ + model@),
        None => None,
    }
    &&& text::opt_view(panel.warning) == text::opt_view(report.warning)
    &&& text::opt_str_view(panel.empty) == if report.hits@.len() == 0 {
        Some("No matching graph elements"@)
    } else {
        None
    }
    &&& row_views(panel.rows@) == hit_rows(report.hits@, percents, marked)
}

/// What the studio shows of a search.
#[derive(Debug)]
pub enum SearchPanel {
    Empty,
    Searching { title: String, detail: String },
    Failed { title: String, detail: String },
    Ready(ReadySearch),
}

impl Studio {
    /// Whether the panel shows the state of the search.
    pub open spec fn search_panel_shows(self, percents: Seq<Seq<char>>, panel: SearchPanel) -> bool {
        match self.search_state {
            SearchState::Idle => panel is Empty,
            SearchState::Searching { query, mode } => panel matches SearchPanel::Searching {
                title,
                detail,
            } && title@ == mode.name() + " search"@ && detail@
                == "Searching all nodes and relationships for “"@ + query@ + "”…"@,
            SearchState::Failed { query, error } => panel matches SearchPanel::Failed {
                title,
                detail,
            } && title@ == "No results for “"@ + query@ + "”"@ && detail@ == error@,
            SearchState::Ready(report) => panel matches SearchPanel::Ready(ready) && search_shown(
                report,
                percents,
                self.selected_search_result,
                ready,
            ),
        }
    }

    /// Decides what is shown of a search; `percents` has the score of each
    /// result as a whole percentage.
    pub fn search_panel(&self, percents: &Vec<String>) -> (r: SearchPanel)
        requires
            self.search_state matches SearchState::Ready(report) ==> percents@.len()
                == report.hits@.len(),
        ensures
            self.search_panel_shows(text::views(percents@), r),
    {
        match &self.search_state {
            SearchState::Idle => SearchPanel::Empty,
            SearchState::Searching { query, mode } => SearchPanel::Searching {
                title: concat2(mode.label(), " search"),
                detail: concat3(
                    "Searching all nodes and relationships for “",
                    query.as_str(),
                    "”…",
                ),
            },
            SearchState::Failed { query, error } => SearchPanel::Failed {
                title: concat3("No results for “", query.as_str(), "”"),
                detail: error.clone(),
            },
            SearchState::Ready(report) => {
                let count = usize_text(report.hits.len());
                let tail = concat2(report.elapsed_ms.as_str(), " ms");
                let model: Option<String> = match &report.embedding_model {
                    Some(model) => Some(concat2("Vectors · ", model.as_str())),
                    None => None,
                };
                let warning: Option<String> = match &report.warning {
                    Some(warning) => Some(warning.clone()),
                    None => None,
                };
                let empty: Option<&'static str> = if report.hits.len() == 0 {
                    Some("No matching graph elements")
                } else {
                    None
                };
                let ghost wanted = hit_rows(
                    report.hits@,
                    text::views(percents@),
                    self.selected_search_result,
                );
                let mut rows: Vec<HitRow> = Vec::new();
                let mut i: usize = 0;
                assert(row_views(rows@) =~= wanted.take(0));
                while i < report.hits.len()
                    invariant
                        i <= report.hits@.len(),
                        percents@.len() == report.hits@.len(),
                        wanted == hit_rows(
                            report.hits@,
                            text::views(percents@),
                            self.selected_search_result,
                        ),
                        row_views(rows@) == wanted.take(i as int),
                    decreases report.hits@.len() - i,
                {
                    let ghost before = rows@;
                    let row = make_hit_row(
                        &report.hits[i],
                        percents[i].as_str(),
                        i == self.selected_search_result,
                    );
                    let ghost view = row@;
                    rows.push(row);
                    proof {
                        assert(row_views(rows@) =~= row_views(before).push(view));
                        assert(wanted[i as int] == view);
                        assert(wanted.take(i + 1) =~= wanted.take(i as int).push(
                            wanted[i as int],
                        ));
                    }
                    i = i + 1;
                }
                assert(wanted.take(wanted.len() as int) =~= wanted);
                let head = concat4(count.as_str(), " ", lower_mode(report.mode), " · ");
                SearchPanel::Ready(
                    ReadySearch {
                        title: concat3("“", report.query.as_str(), "”"),
                        summary: concat2(head.as_str(), tail.as_str()),
                        model,
                        warning,
                        empty,
                        rows,
                    },
                )
            },
        }
    }
}

/// Only the marked result shows its signals.
pub proof fn law_signals_are_shown_once(
    hits: Seq<SearchHit>,
    percents: Seq<Seq<char>>,
    marked: usize,
    i: int,
)
    requires
        0 <= i < hits.len(),
        i != marked,
    ensures
        hit_rows(hits, percents, marked)[i].text_signal is None,
        hit_rows(hits, percents, marked)[i].vector_signal is None,
{
}

} // verus!
