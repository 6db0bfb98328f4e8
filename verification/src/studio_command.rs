//! The commands of the studio's query field.

use vstd::prelude::*;
use vstd::string::*;

use crate::digits;
use crate::graph::Direction;
use crate::scene::LayoutKind;
use crate::search::SearchMode;
use crate::text;
use crate::text::Separator;

verus! {

/// A lens on the elements that share a label.
#[derive(Debug)]
pub enum FacetLens {
    NodeLabel(String),
    Relationship(String),
}

/// The contents of a lens.
pub enum FacetView {
    NodeLabel(Seq<char>),
    Relationship(Seq<char>),
}

impl View for FacetLens {
    type V = FacetView;

    open spec fn view(&self) -> FacetView {
        match self {
            FacetLens::NodeLabel(label) => FacetView::NodeLabel(label@),
            FacetLens::Relationship(label) => FacetView::Relationship(label@),
        }
    }
}

impl FacetView {
    /// The label that is looked for.
    pub open spec fn label(self) -> Seq<char> {
        match self {
            FacetView::NodeLabel(label) => label,
            FacetView::Relationship(label) => label,
        }
    }

    /// What kind of label it is.
    pub open spec fn kind(self) -> Seq<char> {
        match self {
            FacetView::NodeLabel(_) => "node label"@,
            FacetView::Relationship(_) => "relationship"@,
        }
    }
}

impl FacetLens {
    /// The label that is looked for.
    pub fn label(&self) -> (r: &String)
        ensures
            r@ == self@.label(),
    {
        match self {
            FacetLens::NodeLabel(label) => label,
            FacetLens::Relationship(label) => label,
        }
    }

    /// What kind of label it is.
    pub fn kind_label(&self) -> (r: &'static str)
        ensures
            r@ == self@.kind(),
    {
        match self {
            FacetLens::NodeLabel(_) => "node label",
            FacetLens::Relationship(_) => "relationship",
        }
    }

    /// Whether two lenses are the same.
    pub fn same(&self, other: &FacetLens) -> (r: bool)
        ensures
            r == (self@ == other@),
    {
        match (self, other) {
            (FacetLens::NodeLabel(a), FacetLens::NodeLabel(b)) => text::same_text(
                a.as_str(),
                b.as_str(),
            ),
            (FacetLens::Relationship(a), FacetLens::Relationship(b)) => text::same_text(
                a.as_str(),
                b.as_str(),
            ),
            _ => false,
        }
    }

    /// A copy of the lens.
    pub fn copied(&self) -> (r: FacetLens)
        ensures
            r@ == self@,
    {
        match self {
            FacetLens::NodeLabel(label) => FacetLens::NodeLabel(label.clone()),
            FacetLens::Relationship(label) => FacetLens::Relationship(label.clone()),
        }
    }
}

/// A request for an exact path.
#[derive(Debug)]
pub struct EvidencePathQuery {
    pub start: u64,
    pub end: u64,
    pub direction: Direction,
    pub relationship_label: Option<String>,
    pub max_hops: usize,
}

/// The contents of a request for an exact path.
pub struct PathQueryView {
    pub start: u64,
    pub end: u64,
    pub direction: Direction,
    pub relationship_label: Option<Seq<char>>,
    pub max_hops: usize,
}

impl View for EvidencePathQuery {
    type V = PathQueryView;

    open spec fn view(&self) -> PathQueryView {
        PathQueryView {
            start: self.start,
            end: self.end,
            direction: self.direction,
            relationship_label: text::opt_view(self.relationship_label),
            max_hops: self.max_hops,
        }
    }
}

/// What the query field asks for.
#[derive(Debug)]
pub enum StudioCommand {
    Nothing,
    /// A command was written wrongly; this says how it is written.
    Explain(&'static str),
    Fit,
    /// The zoom that was written, if any; whether it is a number is not told.
    Zoom(Option<String>),
    Clear,
    Release,
    Arrange(LayoutKind),
    SelectNode(u64),
    CenterNode(u64),
    FocusNode(u64),
    SelectEdge(u64),
    PathStart { start: u64, direction: Direction, max_hops: usize },
    Path(EvidencePathQuery),
    Facet(FacetLens),
    /// A search that also sets the mode.
    Search(SearchMode, String),
    /// A search in the mode that is set.
    SearchText(String),
}

/// The contents of what the query field asks for.
pub enum StudioCommandView {
    Nothing,
    Explain(Seq<char>),
    Fit,
    Zoom(Option<Seq<char>>),
    Clear,
    Release,
    Arrange(LayoutKind),
    SelectNode(u64),
    CenterNode(u64),
    FocusNode(u64),
    SelectEdge(u64),
    PathStart { start: u64, direction: Direction, max_hops: usize },
    Path(PathQueryView),
    Facet(FacetView),
    Search(SearchMode, Seq<char>),
    SearchText(Seq<char>),
}

impl View for StudioCommand {
    type V = StudioCommandView;

    open spec fn view(&self) -> StudioCommandView {
        match self {
            StudioCommand::Nothing => StudioCommandView::Nothing,
            StudioCommand::Explain(s) => StudioCommandView::Explain(s@),
            StudioCommand::Fit => StudioCommandView::Fit,
            StudioCommand::Zoom(s) => StudioCommandView::Zoom(text::opt_view(*s)),
            StudioCommand::Clear => StudioCommandView::Clear,
            StudioCommand::Release => StudioCommandView::Release,
            StudioCommand::Arrange(kind) => StudioCommandView::Arrange(*kind),
            StudioCommand::SelectNode(id) => StudioCommandView::SelectNode(*id),
            StudioCommand::CenterNode(id) => StudioCommandView::CenterNode(*id),
            StudioCommand::FocusNode(id) => StudioCommandView::FocusNode(*id),
            StudioCommand::SelectEdge(id) => StudioCommandView::SelectEdge(*id),
            StudioCommand::PathStart { start, direction, max_hops } => {
                StudioCommandView::PathStart {
                    start: *start,
                    direction: *direction,
                    max_hops: *max_hops,
                }
            },
            StudioCommand::Path(query) => StudioCommandView::Path(query@),
            StudioCommand::Facet(facet) => StudioCommandView::Facet(facet@),
            StudioCommand::Search(mode, s) => StudioCommandView::Search(*mode, s@),
            StudioCommand::SearchText(s) => StudioCommandView::SearchText(s@),
        }
    }
}

/// The word at a position, where there is one.
pub open spec fn word(words: Seq<Seq<char>>, i: int) -> Option<Seq<char>> {
    if 0 <= i < words.len() {
        Some(words[i])
    } else {
        None
    }
}

/// The number at a position, where there is one.
pub open spec fn number_word(words: Seq<Seq<char>>, i: int) -> Option<u64> {
    match word(words, i) {
        Some(w) => digits::u64_value(w),
        None => None,
    }
}

/// The direction at a position; either way where there is none.
pub open spec fn direction_word(words: Seq<Seq<char>>, i: int) -> Option<Direction> {
    match word(words, i) {
        None => Some(Direction::Both),
        Some(w) => if w == "both"@ {
            Some(Direction::Both)
        } else if w == "out"@ || w == "outgoing"@ {
            Some(Direction::Outgoing)
        } else if w == "in"@ || w == "incoming"@ {
            Some(Direction::Incoming)
        } else {
            None
        },
    }
}

/// The hop limit at a position, from `least` to 64; six where there is none.
pub open spec fn hops_word(words: Seq<Seq<char>>, i: int, least: usize) -> Option<usize> {
    match word(words, i) {
        None => Some(6),
        Some(w) => match digits::usize_value(w) {
            Some(n) if least <= n <= 64 => Some(n),
            _ => None,
        },
    }
}

/// The words from a position on, with a space between neighbours.
pub open spec fn rest_of(words: Seq<Seq<char>>, from: int) -> Seq<char> {
    if from <= words.len() {
        text::joined(words.skip(from), " "@)
    } else {
        Seq::empty()
    }
}

/// How a path from a chosen origin is asked for.
pub open spec fn path_start_command(words: Seq<Seq<char>>) -> StudioCommandView {
    let expected = StudioCommandView::Explain(
        "Expected: path-start <node-id> [both|out|in] [max-hops]"@,
    );
    match number_word(words, 1) {
        None => expected,
        Some(start) => match direction_word(words, 2) {
            None => expected,
            Some(direction) => match hops_word(words, 3, 1) {
                None => StudioCommandView::Explain(
                    "Path max-hops must be an integer from 1 to 64"@,
                ),
                Some(max_hops) => if words.len() > 4 {
                    expected
                } else {
                    StudioCommandView::PathStart { start, direction, max_hops }
                },
            },
        },
    }
}

/// How a path between two nodes is asked for.
pub open spec fn path_command(words: Seq<Seq<char>>) -> StudioCommandView {
    let expected = StudioCommandView::Explain(
        "Expected: path <start-node-id> <end-node-id> [both|out|in] [relationship-label|-] [max-hops]"@,
    );
    match (number_word(words, 1), number_word(words, 2)) {
        (Some(start), Some(end)) => match direction_word(words, 3) {
            None => expected,
            Some(direction) => match hops_word(words, 5, 0) {
                None => StudioCommandView::Explain(
                    "Path max-hops must be an integer from 0 to 64"@,
                ),
                Some(max_hops) => if words.len() > 6 {
                    expected
                } else {
                    StudioCommandView::Path(
                        PathQueryView {
                            start,
                            end,
                            direction,
                            relationship_label: match word(words, 4) {
                                Some(label) if label != "-"@ => Some(label),
                                _ => None,
                            },
                            max_hops,
                        },
                    )
                },
            },
        },
        _ => expected,
    }
}

/// How a lens is asked for.
pub open spec fn facet_command(words: Seq<Seq<char>>) -> StudioCommandView {
    let expected = StudioCommandView::Explain(
        "Expected: facet node <label> | facet relationship <label>"@,
    );
    let label = rest_of(words, 2);
    if label.len() == 0 {
        expected
    } else {
        match word(words, 1) {
            Some(kind) => if kind == "node"@ || kind == "label"@ {
                StudioCommandView::Facet(FacetView::NodeLabel(label))
            } else if kind == "edge"@ || kind == "relationship"@ {
                StudioCommandView::Facet(FacetView::Relationship(label))
            } else {
                expected
            },
            None => expected,
        }
    }
}

/// How an arrangement is asked for.
pub open spec fn layout_command(words: Seq<Seq<char>>) -> StudioCommandView {
    let expected = StudioCommandView::Explain(
        "Expected: layout auto | layout force | layout structure | layout orbit"@,
    );
    match word(words, 1) {
        Some(kind) => if kind == "auto"@ {
            StudioCommandView::Arrange(LayoutKind::Auto)
        } else if kind == "force"@ {
            StudioCommandView::Arrange(LayoutKind::Force)
        } else if kind == "structure"@ {
            StudioCommandView::Arrange(LayoutKind::Structure)
        } else if kind == "orbit"@ {
            StudioCommandView::Arrange(LayoutKind::Orbit)
        } else {
            expected
        },
        None => expected,
    }
}

/// What the query field asks for.
pub open spec fn command_of(query: Seq<char>) -> StudioCommandView {
    let words = text::nonempty_pieces(query, Separator::Whitespace);
    if words.len() == 0 {
        StudioCommandView::Nothing
    } else if words[0] == "fit"@ {
        StudioCommandView::Fit
    } else if words[0] == "zoom"@ {
        StudioCommandView::Zoom(word(words, 1))
    } else if words[0] == "clear"@ {
        StudioCommandView::Clear
    } else if words[0] == "release"@ {
        StudioCommandView::Release
    } else if words[0] == "layout"@ {
        layout_command(words)
    } else if words[0] == "node"@ {
        match number_word(words, 1) {
            Some(id) => StudioCommandView::SelectNode(id),
            None => StudioCommandView::Explain("Expected: node <numeric-id>"@),
        }
    } else if words[0] == "center"@ {
        match number_word(words, 1) {
            Some(id) => StudioCommandView::CenterNode(id),
            None => StudioCommandView::Explain("Expected: center <numeric-node-id>"@),
        }
    } else if words[0] == "focus"@ || words[0] == "context"@ {
        match number_word(words, 1) {
            Some(id) => StudioCommandView::FocusNode(id),
            None => StudioCommandView::Explain("Expected: focus <numeric-node-id>"@),
        }
    } else if words[0] == "edge"@ || words[0] == "relationship"@ {
        match number_word(words, 1) {
            Some(id) => StudioCommandView::SelectEdge(id),
            None => StudioCommandView::Explain("Expected: edge <numeric-id>"@),
        }
    } else if words[0] == "path-start"@ {
        path_start_command(words)
    } else if words[0] == "path"@ {
        path_command(words)
    } else if words[0] == "facet"@ || words[0] == "lens"@ {
        facet_command(words)
    } else if words[0] == "text"@ {
        StudioCommandView::Search(SearchMode::Text, rest_of(words, 1))
    } else if words[0] == "semantic"@ {
        StudioCommandView::Search(SearchMode::Semantic, rest_of(words, 1))
    } else if words[0] == "hybrid"@ || words[0] == "search"@ {
        StudioCommandView::Search(SearchMode::Hybrid, rest_of(words, 1))
    } else {
        StudioCommandView::SearchText(query)
    }
}

fn number_at(words: &Vec<String>, i: usize) -> (r: Option<u64>)
    ensures
        r == number_word(text::views(words@), i as int),
{
    if i < words.len() {
        assert(text::views(words@)[i as int] == words@[i as int]@);
        match digits::parse_u64(words[i].as_str()) {
            Ok(n) => Some(n),
            Err(_) => None,
        }
    } else {
        None
    }
}

fn is_word(words: &Vec<String>, i: usize, expected: &str) -> (r: bool)
    ensures
        r == (word(text::views(words@), i as int) == Some(expected@)),
{
    if i < words.len() {
        assert(text::views(words@)[i as int] == words@[i as int]@);
        text::same_text(words[i].as_str(), expected)
    } else {
        false
    }
}

fn direction_at(words: &Vec<String>, i: usize) -> (r: Option<Direction>)
    ensures
        r == direction_word(text::views(words@), i as int),
{
    if i >= words.len() {
        Some(Direction::Both)
    } else if is_word(words, i, "both") {
        Some(Direction::Both)
    } else if is_word(words, i, "out") || is_word(words, i, "outgoing") {
        Some(Direction::Outgoing)
    } else if is_word(words, i, "in") || is_word(words, i, "incoming") {
        Some(Direction::Incoming)
    } else {
        None
    }
}

fn hops_at(words: &Vec<String>, i: usize, least: usize) -> (r: Option<usize>)
    ensures
        r == hops_word(text::views(words@), i as int, least),
{
    if i >= words.len() {
        return Some(6);
    }
    assert(text::views(words@)[i as int] == words@[i as int]@);
    match digits::parse_usize(words[i].as_str()) {
        Ok(n) => if least <= n && n <= 64 {
            Some(n)
        } else {
            None
        },
        Err(_) => None,
    }
}

fn joined_from(words: &Vec<String>, from: usize) -> (r: String)
    ensures
        r@ == rest_of(text::views(words@), from as int),
{
    if from > words.len() {
        let r = String::new();
        assert(r@ =~= Seq::<char>::empty());
        return r;
    }
    let mut rest: Vec<String> = Vec::new();
    let mut i: usize = from;
    let ghost all = text::views(words@);
    assert(text::views(rest@) =~= all.subrange(from as int, from as int));
    while i < words.len()
        invariant
            from <= i <= words.len(),
            all == text::views(words@),
            text::views(rest@) == all.subrange(from as int, i as int),
        decreases words.len() - i,
    {
        let ghost before = text::views(rest@);
        rest.push(words[i].clone());
        assert(text::views(rest@) =~= before.push(words@[i as int]@));
        assert(text::views(rest@) =~= all.subrange(from as int, i + 1));
        i = i + 1;
    }
    assert(all.subrange(from as int, all.len() as int) =~= all.skip(from as int));
    text::join_texts(&rest, " ")
}

fn parse_path_start(words: &Vec<String>) -> (r: StudioCommand)
    ensures
        r@ == path_start_command(text::views(words@)),
{
    let expected = "Expected: path-start <node-id> [both|out|in] [max-hops]";
    let start: u64 = match number_at(words, 1) {
        Some(id) => id,
        None => {
            return StudioCommand::Explain(expected);
        },
    };
    let direction = match direction_at(words, 2) {
        Some(d) => d,
        None => {
            return StudioCommand::Explain(expected);
        },
    };
    let max_hops: usize = match hops_at(words, 3, 1) {
        Some(n) => n,
        None => {
            return StudioCommand::Explain("Path max-hops must be an integer from 1 to 64");
        },
    };
    if words.len() > 4 {
        return StudioCommand::Explain(expected);
    }
    StudioCommand::PathStart { start, direction, max_hops }
}

fn parse_path(words: &Vec<String>) -> (r: StudioCommand)
    ensures
        r@ == path_command(text::views(words@)),
{
    let expected =
        "Expected: path <start-node-id> <end-node-id> [both|out|in] [relationship-label|-] [max-hops]";
    let start: u64 = match number_at(words, 1) {
        Some(id) => id,
        None => {
            return StudioCommand::Explain(expected);
        },
    };
    let end: u64 = match number_at(words, 2) {
        Some(id) => id,
        None => {
            return StudioCommand::Explain(expected);
        },
    };
    let direction = match direction_at(words, 3) {
        Some(d) => d,
        None => {
            return StudioCommand::Explain(expected);
        },
    };
    let relationship_label: Option<String> = if words.len() <= 4 || is_word(words, 4, "-") {
        None
    } else {
        Some(words[4].clone())
    };
    let max_hops: usize = match hops_at(words, 5, 0) {
        Some(n) => n,
        None => {
            return StudioCommand::Explain("Path max-hops must be an integer from 0 to 64");
        },
    };
    if words.len() > 6 {
        return StudioCommand::Explain(expected);
    }
    let query = EvidencePathQuery { start, end, direction, relationship_label, max_hops };
    assert(text::views(words@).len() == words@.len());
    assert(words@.len() > 4 ==> text::views(words@)[4] == words@[4]@);
    StudioCommand::Path(query)
}

fn parse_facet(words: &Vec<String>) -> (r: StudioCommand)
    ensures
        r@ == facet_command(text::views(words@)),
{
    let expected = "Expected: facet node <label> | facet relationship <label>";
    let label = joined_from(words, 2);
    if label.as_str().is_empty() {
        return StudioCommand::Explain(expected);
    }
    if is_word(words, 1, "node") || is_word(words, 1, "label") {
        StudioCommand::Facet(FacetLens::NodeLabel(label))
    } else if is_word(words, 1, "edge") || is_word(words, 1, "relationship") {
        StudioCommand::Facet(FacetLens::Relationship(label))
    } else {
        StudioCommand::Explain(expected)
    }
}

fn parse_layout(words: &Vec<String>) -> (r: StudioCommand)
    ensures
        r@ == layout_command(text::views(words@)),
{
    if is_word(words, 1, "auto") {
        StudioCommand::Arrange(LayoutKind::Auto)
    } else if is_word(words, 1, "force") {
        StudioCommand::Arrange(LayoutKind::Force)
    } else if is_word(words, 1, "structure") {
        StudioCommand::Arrange(LayoutKind::Structure)
    } else if is_word(words, 1, "orbit") {
        StudioCommand::Arrange(LayoutKind::Orbit)
    } else {
        StudioCommand::Explain(
            "Expected: layout auto | layout force | layout structure | layout orbit",
        )
    }
}

/// Reads the query field.
pub fn parse_studio_command(query: &str) -> (r: StudioCommand)
    ensures
        r@ == command_of(query@),
{
    let words = text::split_nonempty(query, Separator::Whitespace);
    assert(text::views(words@).len() == words@.len());
    if words.len() == 0 {
        StudioCommand::Nothing
    } else if is_word(&words, 0, "fit") {
        StudioCommand::Fit
    } else if is_word(&words, 0, "zoom") {
        if words.len() > 1 {
            assert(text::views(words@)[1] == words@[1]@);
            StudioCommand::Zoom(Some(words[1].clone()))
        } else {
            StudioCommand::Zoom(None)
        }
    } else if is_word(&words, 0, "clear") {
        StudioCommand::Clear
    } else if is_word(&words, 0, "release") {
        StudioCommand::Release
    } else if is_word(&words, 0, "layout") {
        parse_layout(&words)
    } else if is_word(&words, 0, "node") {
        match number_at(&words, 1) {
            Some(id) => StudioCommand::SelectNode(id),
            None => StudioCommand::Explain("Expected: node <numeric-id>"),
        }
    } else if is_word(&words, 0, "center") {
        match number_at(&words, 1) {
            Some(id) => StudioCommand::CenterNode(id),
            None => StudioCommand::Explain("Expected: center <numeric-node-id>"),
        }
    } else if is_word(&words, 0, "focus") || is_word(&words, 0, "context") {
        match number_at(&words, 1) {
            Some(id) => StudioCommand::FocusNode(id),
            None => StudioCommand::Explain("Expected: focus <numeric-node-id>"),
        }
    } else if is_word(&words, 0, "edge") || is_word(&words, 0, "relationship") {
        match number_at(&words, 1) {
            Some(id) => StudioCommand::SelectEdge(id),
            None => StudioCommand::Explain("Expected: edge <numeric-id>"),
        }
    } else if is_word(&words, 0, "path-start") {
        parse_path_start(&words)
    } else if is_word(&words, 0, "path") {
        parse_path(&words)
    } else if is_word(&words, 0, "facet") || is_word(&words, 0, "lens") {
        parse_facet(&words)
    } else if is_word(&words, 0, "text") {
        StudioCommand::Search(SearchMode::Text, joined_from(&words, 1))
    } else if is_word(&words, 0, "semantic") {
        StudioCommand::Search(SearchMode::Semantic, joined_from(&words, 1))
    } else if is_word(&words, 0, "hybrid") || is_word(&words, 0, "search") {
        StudioCommand::Search(SearchMode::Hybrid, joined_from(&words, 1))
    } else {
        StudioCommand::SearchText(query.to_owned())
    }
}

/// A path that is asked for never has more than 64 hops, and one from a
/// chosen origin has at least one.
pub proof fn law_hop_limits_hold(query: Seq<char>)
    ensures
        command_of(query) matches StudioCommandView::Path(path) ==> path.max_hops <= 64,
        command_of(query) matches StudioCommandView::PathStart { max_hops, .. } ==> 1 <= max_hops
            <= 64,
{
}

} // verus!
