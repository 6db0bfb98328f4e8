//! The controls around the canvas: which there are at a window width, and
//! which of them are chosen or can be used.

use vstd::prelude::*;
use vstd::string::*;

use crate::scene::{LayoutKind, SceneSelection};
use crate::search::SearchMode;
use crate::single;
use crate::studio::Studio;

verus! {

/// From this width on the inspector is shown: the bits of 980.
pub const INSPECTOR_WIDTH: u32 = 0x4475_0000;

/// From this width on the toolbar has one row: the bits of 1280.
pub const WIDE_WIDTH: u32 = 0x44a0_0000;

/// A button that chooses how to search.
#[derive(Clone, Copy, Debug)]
pub struct ModeButton {
    pub mode: SearchMode,
    pub label: &'static str,
    pub spoken: &'static str,
    pub chosen: bool,
}

/// A button that chooses an arrangement.
#[derive(Clone, Copy, Debug)]
pub struct LayoutButton {
    pub kind: LayoutKind,
    pub label: &'static str,
    pub spoken: &'static str,
    pub chosen: bool,
}

/// Where the zoom and arrangement controls stand.
#[derive(Clone, Copy, Debug, PartialEq, Eq, Structural)]
pub enum ControlPlace {
    /// In a second row of the toolbar.
    Toolbar,
    /// In a bar over the canvas.
    Canvas,
}

/// The controls of a window.
#[derive(Debug)]
pub struct Toolbar {
    pub modes: Vec<ModeButton>,
    pub layouts: Vec<LayoutButton>,
    pub controls: ControlPlace,
    /// The height of the toolbar in pixels.
    pub height: u32,
    /// Whether the selected node can be released.
    pub release: bool,
    pub inspector: bool,
}

/// The buttons that choose how to search.
pub open spec fn mode_buttons(mode: SearchMode) -> Seq<ModeButton> {
    seq![
        ModeButton {
            mode: SearchMode::Text,
            label: "Text",
            spoken: "Use text search",
            chosen: mode == SearchMode::Text,
        },
        ModeButton {
            mode: SearchMode::Hybrid,
            label: "Hybrid",
            spoken: "Use hybrid search",
            chosen: mode == SearchMode::Hybrid,
        },
        ModeButton {
            mode: SearchMode::Semantic,
            label: "Semantic",
            spoken: "Use semantic search",
            chosen: mode == SearchMode::Semantic,
        },
    ]
}

/// The buttons that choose an arrangement.
pub open spec fn layout_buttons(kind: LayoutKind) -> Seq<LayoutButton> {
    seq![
        LayoutButton {
            kind: LayoutKind::Auto,
            label: "Auto",
            spoken: "Use Auto graph layout",
            chosen: kind == LayoutKind::Auto,
        },
        LayoutButton {
            kind: LayoutKind::Force,
            label: "Force",
            spoken: "Use Force graph layout",
            chosen: kind == LayoutKind::Force,
        },
        LayoutButton {
            kind: LayoutKind::Structure,
            label: "Structure",
            spoken: "Use Structure graph layout",
            chosen: kind == LayoutKind::Structure,
        },
        LayoutButton {
            kind: LayoutKind::Orbit,
            label: "Orbit",
            spoken: "Use Orbit graph layout",
            chosen: kind == LayoutKind::Orbit,
        },
    ]
}

/// Where the controls stand at a window width.
pub open spec fn place_at(width: u32) -> ControlPlace {
    if single::less(width, WIDE_WIDTH) {
        ControlPlace::Toolbar
    } else {
        ControlPlace::Canvas
    }
}

impl Studio {
    /// Whether a toolbar is that of a window of this width.
    pub open spec fn toolbar_shows(self, width: u32, pins: Seq<bool>, bar: Toolbar) -> bool {
        &&& bar.modes@ == mode_buttons(self.search_mode)
        &&& bar.layouts@ == layout_buttons(self.layout_kind)
        &&& bar.controls == place_at(width)
        &&& bar.height == if place_at(width) == ControlPlace::Toolbar {
            88u32
        } else {
            52u32
        }
        &&& bar.release == (self.selection matches Some(SceneSelection::Node(index)) && index
            < pins.len() && pins[index as int])
        &&& bar.inspector == (single::less(INSPECTOR_WIDTH, width) || single::equal(
            INSPECTOR_WIDTH,
            width,
        ))
    }

    /// The controls at a window width, whose bits are given; `pins` has the
    /// pins of the scene.
    pub fn toolbar(&self, width: u32, pins: &Vec<bool>) -> (r: Toolbar)
        ensures
            self.toolbar_shows(width, pins@, r),
    {
        let mode = self.search_mode;
        let modes: Vec<ModeButton> = vec![
            ModeButton {
                mode: SearchMode::Text,
                label: "Text",
                spoken: "Use text search",
                chosen: mode == SearchMode::Text,
            },
            ModeButton {
                mode: SearchMode::Hybrid,
                label: "Hybrid",
                spoken: "Use hybrid search",
                chosen: mode == SearchMode::Hybrid,
            },
            ModeButton {
                mode: SearchMode::Semantic,
                label: "Semantic",
                spoken: "Use semantic search",
                chosen: mode == SearchMode::Semantic,
            },
        ];
        let kind = self.layout_kind;
        let layouts: Vec<LayoutButton> = vec![
            LayoutButton {
                kind: LayoutKind::Auto,
                label: "Auto",
                spoken: "Use Auto graph layout",
                chosen: kind == LayoutKind::Auto,
            },
            LayoutButton {
                kind: LayoutKind::Force,
                label: "Force",
                spoken: "Use Force graph layout",
                chosen: kind == LayoutKind::Force,
            },
            LayoutButton {
                kind: LayoutKind::Structure,
                label: "Structure",
                spoken: "Use Structure graph layout",
                chosen: kind == LayoutKind::Structure,
            },
            LayoutButton {
                kind: LayoutKind::Orbit,
                label: "Orbit",
                spoken: "Use Orbit graph layout",
                chosen: kind == LayoutKind::Orbit,
            },
        ];
        proof {
            assert(modes@ =~= mode_buttons(mode));
            assert(layouts@ =~= layout_buttons(kind));
        }
        let compact = single::is_less(width, WIDE_WIDTH);
        Toolbar {
            modes,
            layouts,
            controls: if compact {
                ControlPlace::Toolbar
            } else {
                ControlPlace::Canvas
            },
            height: if compact {
                88
            } else {
                52
            },
            release: self.selected_node_is_pinned(pins),
            inspector: single::is_less(INSPECTOR_WIDTH, width) || single::is_equal(
                INSPECTOR_WIDTH,
                width,
            ),
        }
    }
}

/// Exactly one way of searching and one arrangement are marked as chosen: the
/// ones that are in use.
pub proof fn law_one_button_is_chosen(mode: SearchMode, kind: LayoutKind)
    ensures
        exists|i: int|
            0 <= i < mode_buttons(mode).len() && (#[trigger] mode_buttons(mode)[i]).mode == mode,
        forall|i: int|
            0 <= i < mode_buttons(mode).len() ==> ((#[trigger] mode_buttons(mode)[i]).chosen
                <==> mode_buttons(mode)[i].mode == mode),
        forall|i: int, j: int|
            0 <= i < mode_buttons(mode).len() && 0 <= j < mode_buttons(mode).len()
                && #[trigger] mode_buttons(mode)[i].chosen && #[trigger] mode_buttons(
                mode,
            )[j].chosen ==> i == j,
        exists|i: int|
            0 <= i < layout_buttons(kind).len() && (#[trigger] layout_buttons(kind)[i]).kind
                == kind,
        forall|i: int|
            0 <= i < layout_buttons(kind).len() ==> ((#[trigger] layout_buttons(kind)[i]).chosen
                <==> layout_buttons(kind)[i].kind == kind),
        forall|i: int, j: int|
            0 <= i < layout_buttons(kind).len() && 0 <= j < layout_buttons(kind).len()
                && #[trigger] layout_buttons(kind)[i].chosen && #[trigger] layout_buttons(
                kind,
            )[j].chosen ==> i == j,
{
    let at: int = match mode {
        SearchMode::Text => 0,
        SearchMode::Hybrid => 1,
        SearchMode::Semantic => 2,
    };
    assert(mode_buttons(mode)[at].mode == mode);
    let place: int = match kind {
        LayoutKind::Auto => 0,
        LayoutKind::Force => 1,
        LayoutKind::Structure => 2,
        LayoutKind::Orbit => 3,
    };
    assert(layout_buttons(kind)[place].kind == kind);
}

/// A window that is wide enough for one row of controls also shows the
/// inspector.
pub proof fn law_wide_windows_show_the_inspector(width: u32)
    requires
        !single::nan(width),
        place_at(width) == ControlPlace::Canvas,
    ensures
        single::less(INSPECTOR_WIDTH, width),
{
}

} // verus!
