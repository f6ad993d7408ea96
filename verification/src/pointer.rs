//! What a press of the primary pointer button does: given what lies under the pointer
//! (the application measures the geometry), which menus open or close, how the
//! thumbnail strip changes, and what the application is asked to do next.

use vstd::prelude::*;
use crate::controls::{StatusControl, ThumbnailControl};
use crate::thumbnail::ThumbnailDock;

verus! {

/// The part of the viewer's state that a press reads or changes.
#[derive(Clone, Copy, Debug, PartialEq, Eq, Structural)]
pub struct PointerState {
    pub fullscreen: bool,
    pub dock_menu_open: bool,
    pub zoom_menu_open: bool,
    pub thumbnail_visible: bool,
    pub dock: ThumbnailDock,
}

/// What lies under the pointer, one field for each thing that may be hit.
#[derive(Clone, Copy, Debug, PartialEq, Eq, Structural)]
pub struct PointerHit {
    /// The image that the shown navigation button under the pointer opens, if there is one.
    pub navigation: Option<usize>,
    /// The title bar's default-app button.
    pub default_app_button: bool,
    /// The title bar's context-menu button.
    pub title_action_button: bool,
    /// The entry of the dock menu under the pointer.
    pub dock_choice: Option<ThumbnailDock>,
    /// The position of the entry of the zoom menu under the pointer.
    pub zoom_choice: Option<usize>,
    /// The thumbnail-strip control under the pointer.
    pub thumbnail_control: Option<ThumbnailControl>,
    /// The strip's scroll bar.
    pub scrollbar: bool,
    /// The thumbnail under the pointer.
    pub thumbnail: Option<usize>,
    /// Anywhere on the strip.
    pub in_thumbnail_panel: bool,
    /// The zoom control under the pointer.
    pub status_control: Option<StatusControl>,
}

/// What the application does after a press.
#[derive(Clone, Copy, Debug, PartialEq, Eq, Structural)]
pub enum PointerEffect {
    Nothing,
    OpenThumbnail(usize),
    /// Start dragging the image, if it is larger than the canvas.
    Pan,
    OpenDefaultAppSettings,
    ToggleContextMenu,
    /// The strip was shown, hidden or docked elsewhere: its preferences are saved.
    ThumbnailLayoutChanged,
    /// Apply the zoom menu's entry at this position.
    ZoomChosen(usize),
    BeginThumbnailScroll,
    ActualSize,
    ZoomOut,
    ZoomIn,
    BeginSlider,
    ToggleFullscreen,
}

/// A press with `state` on `hit`: the first of these that applies decides. A shown
/// navigation button opens its image; in fullscreen the image is dragged; the title-bar
/// buttons act; an open dock menu closes, taking the dock under the pointer; an open zoom
/// menu closes, taking the zoom under the pointer; the strip's controls toggle it or open
/// the dock menu; its scroll bar starts a scroll; a thumbnail opens; the rest of the strip
/// does nothing; the zoom controls act (the zoom-menu button opens that menu); anywhere
/// else the image is dragged.
pub open spec fn pointer_transition(state: PointerState, hit: PointerHit) -> (PointerState, PointerEffect) {
    if hit.navigation is Some {
        (state, PointerEffect::OpenThumbnail(hit.navigation->0))
    } else if state.fullscreen {
        (state, PointerEffect::Pan)
    } else if hit.default_app_button {
        (state, PointerEffect::OpenDefaultAppSettings)
    } else if hit.title_action_button {
        (state, PointerEffect::ToggleContextMenu)
    } else if state.dock_menu_open {
        match hit.dock_choice {
            Some(dock) => (
                PointerState { dock_menu_open: false, dock, ..state },
                PointerEffect::ThumbnailLayoutChanged,
            ),
            None => (PointerState { dock_menu_open: false, ..state }, PointerEffect::Nothing),
        }
    } else if state.zoom_menu_open {
        (
            PointerState { zoom_menu_open: false, ..state },
            match hit.zoom_choice {
                Some(choice) => PointerEffect::ZoomChosen(choice),
                None => PointerEffect::Nothing,
            },
        )
    } else if hit.thumbnail_control == Some(ThumbnailControl::Toggle) {
        (
            PointerState { thumbnail_visible: !state.thumbnail_visible, ..state },
            PointerEffect::ThumbnailLayoutChanged,
        )
    } else if hit.thumbnail_control == Some(ThumbnailControl::DockMenu) {
        (PointerState { dock_menu_open: true, ..state }, PointerEffect::Nothing)
    } else if hit.scrollbar {
        (state, PointerEffect::BeginThumbnailScroll)
    } else if hit.thumbnail is Some {
        (state, PointerEffect::OpenThumbnail(hit.thumbnail->0))
    } else if hit.in_thumbnail_panel {
        (state, PointerEffect::Nothing)
    } else {
        match hit.status_control {
            Some(StatusControl::ActualSize) => (state, PointerEffect::ActualSize),
            Some(StatusControl::ZoomMenu) => (
                PointerState { zoom_menu_open: true, ..state },
                PointerEffect::Nothing,
            ),
            Some(StatusControl::ZoomOut) => (state, PointerEffect::ZoomOut),
            Some(StatusControl::Slider) => (state, PointerEffect::BeginSlider),
            Some(StatusControl::ZoomIn) => (state, PointerEffect::ZoomIn),
            Some(StatusControl::Fullscreen) => (state, PointerEffect::ToggleFullscreen),
            None => (state, PointerEffect::Pan),
        }
    }
}

/// Whether a press with `state` on `hit` reaches the menus: no navigation button, no
/// fullscreen and no title-bar button takes it first.
pub open spec fn reaches_menus(state: PointerState, hit: PointerHit) -> bool {
    hit.navigation is None && !state.fullscreen && !hit.default_app_button && !hit.title_action_button
}

/// Decides a press of the pointer with `state` on `hit`. A press that reaches the menus
/// closes the menu that was open, and never opens one while another was open; no press
/// leaves the fullscreen setting changed or opens both menus from a state with at most one
/// open.
pub fn pointer_step(state: PointerState, hit: PointerHit) -> (r: (PointerState, PointerEffect))
    ensures
        r == pointer_transition(state, hit),
        r.0.fullscreen == state.fullscreen,
        !(state.dock_menu_open && state.zoom_menu_open) ==> !(r.0.dock_menu_open && r.0.zoom_menu_open),
        reaches_menus(state, hit) && state.dock_menu_open ==> !r.0.dock_menu_open && r.0.zoom_menu_open
            == state.zoom_menu_open,
        reaches_menus(state, hit) && state.zoom_menu_open && !state.dock_menu_open ==> !r.0.zoom_menu_open
            && !r.0.dock_menu_open,
{
    if let Some(index) = hit.navigation {
        return (state, PointerEffect::OpenThumbnail(index));
    }
    if state.fullscreen {
        return (state, PointerEffect::Pan);
    }
    if hit.default_app_button {
        return (state, PointerEffect::OpenDefaultAppSettings);
    }
    if hit.title_action_button {
        return (state, PointerEffect::ToggleContextMenu);
    }
    if state.dock_menu_open {
        return match hit.dock_choice {
            Some(dock) => (
                PointerState { dock_menu_open: false, dock, ..state },
                PointerEffect::ThumbnailLayoutChanged,
            ),
            None => (PointerState { dock_menu_open: false, ..state }, PointerEffect::Nothing),
        };
    }
    if state.zoom_menu_open {
        let effect = match hit.zoom_choice {
            Some(choice) => PointerEffect::ZoomChosen(choice),
            None => PointerEffect::Nothing,
        };
        return (PointerState { zoom_menu_open: false, ..state }, effect);
    }
    match hit.thumbnail_control {
        Some(ThumbnailControl::Toggle) => {
            return (
                PointerState { thumbnail_visible: !state.thumbnail_visible, ..state },
                PointerEffect::ThumbnailLayoutChanged,
            );
        },
        Some(ThumbnailControl::DockMenu) => {
            return (PointerState { dock_menu_open: true, ..state }, PointerEffect::Nothing);
        },
        None => {},
    }
    if hit.scrollbar {
        return (state, PointerEffect::BeginThumbnailScroll);
    }
    if let Some(index) = hit.thumbnail {
        return (state, PointerEffect::OpenThumbnail(index));
    }
    if hit.in_thumbnail_panel {
        return (state, PointerEffect::Nothing);
    }
    match hit.status_control {
        Some(StatusControl::ActualSize) => (state, PointerEffect::ActualSize),
        Some(StatusControl::ZoomMenu) => (PointerState { zoom_menu_open: true, ..state }, PointerEffect::Nothing),
        Some(StatusControl::ZoomOut) => (state, PointerEffect::ZoomOut),
        Some(StatusControl::Slider) => (state, PointerEffect::BeginSlider),
        Some(StatusControl::ZoomIn) => (state, PointerEffect::ZoomIn),
        Some(StatusControl::Fullscreen) => (state, PointerEffect::ToggleFullscreen),
        None => (state, PointerEffect::Pan),
    }
}

} // verus!
