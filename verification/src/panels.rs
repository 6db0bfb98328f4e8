//! What the studio's left panel shows: facets, the path that is traced, and
//! search results.

use vstd::prelude::*;
use vstd::string::*;

use crate::digits;
use crate::digits::format_count;
use crate::studio::{PathState, SearchState, Studio};
use crate::studio_command::FacetLens;
use crate::text;
use crate::text::concat2;

verus! {

/// The contents of counted labels.
pub open spec fn count_views(counts: Seq<(String, usize)>) -> Seq<(Seq<char>, usize)> {
    counts.map_values(|c: (String, usize)| (c.0@, c.1))
}

/// The position of a label among counted labels from `from` on.
pub open spec fn label_place(counts: Seq<(Seq<char>, usize)>, label: Seq<char>, from: int) -> Option<
    int,
>
    decreases counts.len() - from,
{
    if from < 0 || from >= counts.len() {
        None
    } else if counts[from].0 == label {
        Some(from)
    } else {
        label_place(counts, label, from + 1)
    }
}

/// As many counted labels as are shown.
pub open spec fn first_ten(counts: Seq<(Seq<char>, usize)>) -> Seq<(Seq<char>, usize)> {
    if counts.len() <= 10 {
        counts
    } else {
        counts.take(10)
    }
}

/// The counted labels that are shown: the first ten, and if the active one is
/// not among them, it before the first nine.
pub open spec fn shown_counts(counts: Seq<(Seq<char>, usize)>, active: Option<Seq<char>>) -> Seq<
    (Seq<char>, usize),
> {
    let first = first_ten(counts);
    match active {
        None => first,
        Some(label) => match label_place(counts, label, 0) {
            None => first,
            Some(at) => if at < first.len() {
                first
            } else {
                seq![counts[at]] + first.take(9)
            },
        },
    }
}

fn find_label(counts: &Vec<(String, usize)>, label: &str) -> (r: Option<usize>)
    ensures
        match r {
            Some(i) => i < counts@.len() && label_place(count_views(counts@), label@, 0) == Some(
                i as int,
            ),
            None => label_place(count_views(counts@), label@, 0) is None,
        },
{
    let mut i: usize = 0;
    while i < counts.len()
        invariant
            i <= counts.len(),
            label_place(count_views(counts@), label@, i as int) == label_place(
                count_views(counts@),
                label@,
                0,
            ),
        decreases counts.len() - i,
    {
        assert(count_views(counts@)[i as int] == (counts@[i as int].0@, counts@[i as int].1));
        if text::same_text(counts[i].0.as_str(), label) {
            return Some(i);
        }
        i = i + 1;
    }
    None
}

fn push_counts(out: &mut Vec<(String, usize)>, counts: &Vec<(String, usize)>, end: usize)
    requires
        end <= counts@.len(),
    ensures
        count_views(final(out)@) == count_views(old(out)@) + count_views(counts@).take(end as int),
{
    let ghost before = count_views(out@);
    let ghost all = count_views(counts@);
    let mut i: usize = 0;
    assert(count_views(out@) =~= before + all.take(0));
    while i < end
        invariant
            i <= end <= counts@.len(),
            all == count_views(counts@),
            count_views(out@) == before + all.take(i as int),
        decreases end - i,
    {
        let ghost now = count_views(out@);
        out.push((counts[i].0.clone(), counts[i].1));
        proof {
            assert(all[i as int] == (counts@[i as int].0@, counts@[i as int].1));
            assert(count_views(out@) =~= now.push(all[i as int]));
            assert(all.take(i + 1) =~= all.take(i as int).push(all[i as int]));
            assert(count_views(out@) =~= before + all.take(i + 1));
        }
        i = i + 1;
    }
}

/// Picks the counted labels that are shown.
pub fn visible_facet_counts(counts: &Vec<(String, usize)>, active: Option<&str>) -> (r: Vec<
    (String, usize),
>)
    ensures
        count_views(r@) == shown_counts(count_views(counts@), text::opt_str_view(active)),
{
    let ghost all = count_views(counts@);
    let end: usize = if counts.len() <= 10 {
        counts.len()
    } else {
        10
    };
    assert(all.take(end as int) =~= first_ten(all));
    let mut out: Vec<(String, usize)> = Vec::new();
    assert(count_views(out@) =~= Seq::<(Seq<char>, usize)>::empty());
    match active {
        Some(label) => {
            match find_label(counts, label) {
                Some(at) => {
                    if at >= end {
                        out.push((counts[at].0.clone(), counts[at].1));
                        assert(count_views(out@) =~= seq![all[at as int]]);
                        assert(first_ten(all).take(9) =~= all.take(9));
                        push_counts(&mut out, counts, 9);
                        return out;
                    }
                },
                None => {},
            }
        },
        None => {},
    }
    push_counts(&mut out, counts, end);
    assert(count_views(out@) =~= all.take(end as int));
    out
}

/// No more than ten labels are shown, and an active one that is counted is
/// among them.
pub proof fn law_active_facet_is_shown(counts: Seq<(Seq<char>, usize)>, label: Seq<char>)
    ensures
        shown_counts(counts, Some(label)).len() <= 10,
        shown_counts(counts, None).len() <= 10,
        label_place(counts, label, 0) matches Some(at) ==> 0 <= at < counts.len() && shown_counts(
            counts,
            Some(label),
        ).contains(counts[at]) && counts[at].0 == label,
{
    lemma_label_place(counts, label, 0);
    match label_place(counts, label, 0) {
        Some(at) => {
            let first = first_ten(counts);
            if at < first.len() {
                assert(first[at] == counts[at]);
            } else {
                let shown = shown_counts(counts, Some(label));
                assert(shown[0] == counts[at]);
            }
        },
        None => {},
    }
}

proof fn lemma_label_place(counts: Seq<(Seq<char>, usize)>, label: Seq<char>, from: int)
    requires
        from >= 0,
    ensures
        label_place(counts, label, from) matches Some(at) ==> from <= at < counts.len()
            && counts[at].0 == label,
    decreases counts.len() - from,
{
    if from < counts.len() && counts[from].0 != label {
        lemma_label_place(counts, label, from + 1);
    }
}

/// A facet as it is shown.
#[derive(Debug)]
pub struct FacetRow {
    pub label: String,
    /// `LENS` for the one that is looked through, else its count.
    pub mark: String,
    pub active: bool,
}

/// The contents of a facet as it is shown.
pub struct FacetRowView {
    pub label: Seq<char>,
    pub mark: Seq<char>,
    pub active: bool,
}

impl View for FacetRow {
    type V = FacetRowView;

    open spec fn view(&self) -> FacetRowView {
        FacetRowView { label: self.label@, mark: self.mark@, active: self.active }
    }
}

/// A facet as it is shown.
pub open spec fn facet_row(count: (Seq<char>, usize), active: Option<Seq<char>>) -> FacetRowView {
    let looked = active == Some(count.0);
    FacetRowView {
        label: count.0,
        mark: if looked {
            "LENS"@
        } else {
            digits::counted(count.1 as nat)
        },
        active: looked,
    }
}

/// A group of facets.
#[derive(Debug)]
pub struct FacetSection {
    pub title: &'static str,
    /// How many different labels there are.
    pub types: String,
    pub rows: Vec<FacetRow>,
}

/// The contents of facets.
pub open spec fn rows_view(rows: Seq<FacetRow>) -> Seq<FacetRowView> {
    rows.map_values(|r: FacetRow| r@)
}

impl FacetSection {
    /// Whether the section shows the counted labels.
    pub open spec fn shows(
        self,
        title: Seq<char>,
        counts: Seq<(Seq<char>, usize)>,
        active: Option<Seq<char>>,
    ) -> bool {
        &&& self.title@ == title
        &&& self.types@ == digits::counted(counts.len()) + " TYPES"@
        &&& rows_view(self.rows@) == shown_counts(counts, active).map_values(
            |c: (Seq<char>, usize)| facet_row(c, active),
        )
    }
}

fn facet_section(title: &'static str, counts: &Vec<(String, usize)>, active: Option<&str>) -> (r:
    FacetSection)
    ensures
        r.shows(title@, count_views(counts@), text::opt_str_view(active)),
{
    let shown = visible_facet_counts(counts, active);
    let ghost wanted = count_views(shown@).map_values(
        |c: (Seq<char>, usize)| facet_row(c, text::opt_str_view(active)),
    );
    let mut rows: Vec<FacetRow> = Vec::new();
    let mut i: usize = 0;
    assert(rows_view(rows@) =~= wanted.take(0));
    while i < shown.len()
        invariant
            i <= shown.len(),
            wanted == count_views(shown@).map_values(
                |c: (Seq<char>, usize)| facet_row(c, text::opt_str_view(active)),
            ),
            rows_view(rows@) == wanted.take(i as int),
        decreases shown.len() - i,
    {
        let looked = match active {
            Some(label) => text::same_text(shown[i].0.as_str(), label),
            None => false,
        };
        let row = FacetRow {
            label: shown[i].0.clone(),
            mark: if looked {
                "LENS".to_owned()
            } else {
                format_count(shown[i].1)
            },
            active: looked,
        };
        let ghost before = rows_view(rows@);
        let ghost view = row@;
        rows.push(row);
        proof {
            assert(rows_view(rows@) =~= before.push(view));
            assert(count_views(shown@)[i as int] == (shown@[i as int].0@, shown@[i as int].1));
            assert(view == wanted[i as int]);
            assert(wanted.take(i + 1) =~= wanted.take(i as int).push(view));
        }
        i = i + 1;
    }
    assert(wanted.take(shown@.len() as int) =~= wanted);
    let total = format_count(counts.len());
    FacetSection { title, types: concat2(total.as_str(), " TYPES"), rows }
}

/// What the left panel shows.
#[derive(Debug)]
pub struct LeftPanel {
    /// The tab beside the overview's.
    pub tab: Option<&'static str>,
    /// The panel's width.
    pub width: u32,
    /// Whether search results are shown.
    pub search: bool,
    /// Whether a path is shown.
    pub path: bool,
    /// Relationship and node facets, where neither is shown.
    pub facets: Option<(FacetSection, FacetSection)>,
}

impl Studio {
    /// The relationship that is looked for through the lens.
    pub open spec fn active_relationship(self) -> Option<Seq<char>> {
        match self.active_facet {
            Some(FacetLens::Relationship(label)) => Some(label@),
            _ => None,
        }
    }

    /// The node label that is looked for through the lens.
    pub open spec fn active_node_label(self) -> Option<Seq<char>> {
        match self.active_facet {
            Some(FacetLens::NodeLabel(label)) => Some(label@),
            _ => None,
        }
    }

    /// What the left panel shows.
    pub open spec fn left_panel_shows(self, panel: LeftPanel) -> bool {
        let search = !(self.search_state is Idle);
        let path = !(self.path_state is Idle);
        &&& panel.search == search
        &&& panel.path == path
        &&& panel.width == if search || path {
            306u32
        } else {
            218u32
        }
        &&& text::opt_str_view(panel.tab) == if search {
            Some("Search results"@)
        } else if path {
            Some("Evidence path"@)
        } else if self.context_focus_active {
            Some("2-hop context"@)
        } else if self.active_facet is Some {
            Some("Facet lens"@)
        } else {
            None
        }
        &&& match panel.facets {
            None => search || path,
            Some((relationships, nodes)) => {
                &&& !search && !path
                &&& relationships.shows(
                    "RELATIONSHIPS"@,
                    count_views(self.relationship_counts@),
                    self.active_relationship(),
                )
                &&& nodes.shows(
                    "NODE LABELS"@,
                    count_views(self.node_label_counts@),
                    self.active_node_label(),
                )
            },
        }
    }

    /// Decides what the left panel shows.
    pub fn left_panel(&self) -> (r: LeftPanel)
        ensures
            self.left_panel_shows(r),
    {
        let search = !matches!(self.search_state, SearchState::Idle);
        let path = !matches!(self.path_state, PathState::Idle);
        let tab: Option<&'static str> = if search {
            Some("Search results")
        } else if path {
            Some("Evidence path")
        } else if self.context_focus_active {
            Some("2-hop context")
        } else if self.active_facet.is_some() {
            Some("Facet lens")
        } else {
            None
        };
        let facets = if search || path {
            None
        } else {
            let relationship: Option<&str> = match &self.active_facet {
                Some(FacetLens::Relationship(label)) => Some(label.as_str()),
                _ => None,
            };
            let node: Option<&str> = match &self.active_facet {
                Some(FacetLens::NodeLabel(label)) => Some(label.as_str()),
                _ => None,
            };
            Some(
                (
                    facet_section("RELATIONSHIPS", &self.relationship_counts, relationship),
                    facet_section("NODE LABELS", &self.node_label_counts, node),
                ),
            )
        };
        LeftPanel {
            tab,
            width: if search || path {
                306
            } else {
                218
            },
            search,
            path,
            facets,
        }
    }
}

} // verus!
